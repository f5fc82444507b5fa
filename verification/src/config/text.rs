use vstd::prelude::*;
use vstd::string::StrSliceExecFns;
use vstd::string::StringExecFns;

verus! {

/// Decimal digit characters, the only characters that contribute to a sort key.
pub open spec fn is_digit_char(c: char) -> bool {
    '0' <= c && c <= '9'
}

/// The face value of a decimal digit character.
pub open spec fn digit_value(c: char) -> int {
    c as int - '0' as int
}

/// Sum of the face values of the maximal leading run of digits.
pub open spec fn leading_digit_sum(s: Seq<char>) -> nat
    decreases s.len(),
{
    if s.len() == 0 || !is_digit_char(s[0]) {
        0
    } else {
        (digit_value(s[0]) + leading_digit_sum(s.drop_first())) as nat
    }
}

/// The character for a single decimal digit value.
pub open spec fn digit_char(d: int) -> char {
    if d == 0 {
        '0'
    } else if d == 1 {
        '1'
    } else if d == 2 {
        '2'
    } else if d == 3 {
        '3'
    } else if d == 4 {
        '4'
    } else if d == 5 {
        '5'
    } else if d == 6 {
        '6'
    } else if d == 7 {
        '7'
    } else if d == 8 {
        '8'
    } else {
        '9'
    }
}

/// The canonical decimal rendering of a non-negative integer: no sign, no
/// leading zeroes (a single `'0'` for zero).
pub open spec fn decimal_digits(n: nat) -> Seq<char>
    decreases n,
{
    if n < 10 {
        seq![digit_char(n as int)]
    } else {
        decimal_digits(n / 10).push(digit_char((n % 10) as int))
    }
}

fn digit_str(d: u128) -> (r: &'static str)
    requires
        d < 10,
    ensures
        r@ =~= seq![digit_char(d as int)],
{
    proof {
        reveal_strlit("0");
        reveal_strlit("1");
        reveal_strlit("2");
        reveal_strlit("3");
        reveal_strlit("4");
        reveal_strlit("5");
        reveal_strlit("6");
        reveal_strlit("7");
        reveal_strlit("8");
        reveal_strlit("9");
    }
    if d == 0 {
        "0"
    } else if d == 1 {
        "1"
    } else if d == 2 {
        "2"
    } else if d == 3 {
        "3"
    } else if d == 4 {
        "4"
    } else if d == 5 {
        "5"
    } else if d == 6 {
        "6"
    } else if d == 7 {
        "7"
    } else if d == 8 {
        "8"
    } else {
        "9"
    }
}

/// Renders `n` in canonical decimal form.
pub fn to_decimal(n: u128) -> (r: String)
    ensures
        r@ == decimal_digits(n as nat),
    decreases n,
{
    if n < 10 {
        let mut s = String::new();
        s.append(digit_str(n));
        proof {
            assert(s@ =~= decimal_digits(n as nat));
        }
        s
    } else {
        let mut s = to_decimal(n / 10);
        s.append(digit_str(n % 10));
        proof {
            assert(s@ =~= decimal_digits(n as nat));
        }
        s
    }
}

/// Whether `prefix` is a leading substring of `s`, character for character.
pub fn starts_with(s: &str, prefix: &str) -> (r: bool)
    ensures
        r == prefix@.is_prefix_of(s@),
{
    let n = prefix.unicode_len();
    let len = s.unicode_len();
    if len < n {
        proof {
            assert(!prefix@.is_prefix_of(s@));
        }
        return false;
    }
    let mut j: usize = 0;
    while j < n
        invariant
            j <= n,
            n == prefix@.len(),
            n <= len,
            len == s@.len(),
            forall|k: int| 0 <= k < j ==> s@[k] == prefix@[k],
        decreases n - j,
    {
        if s.get_char(j) != prefix.get_char(j) {
            proof {
                assert(prefix@[j as int] != s@.subrange(0, n as int)[j as int]);
                assert(!prefix@.is_prefix_of(s@));
            }
            return false;
        }
        j += 1;
    }
    proof {
        assert(prefix@ =~= s@.subrange(0, n as int));
    }
    true
}

/// The characters a command line is split at.
pub open spec fn is_space_char(c: char) -> bool {
    c == ' ' || c == '\t' || c == '\n' || c == '\r'
}

/// The whitespace-separated words of `s`, in order, each non-empty.
pub open spec fn words_of(s: Seq<char>) -> Seq<Seq<char>>
    decreases s.len(),
{
    if s.len() == 0 {
        Seq::empty()
    } else {
        let rest = words_of(s.drop_last());
        let c = s.last();
        if is_space_char(c) {
            rest
        } else if s.len() >= 2 && !is_space_char(s[s.len() - 2]) {
            rest.update(rest.len() - 1, rest.last().push(c))
        } else {
            rest.push(seq![c])
        }
    }
}

/// A word as the splitter yields it: non-empty and free of whitespace.
pub open spec fn wf_word(w: Seq<char>) -> bool {
    w.len() > 0 && (forall|j: int| 0 <= j < w.len() ==> !is_space_char(w[j]))
}

/// A text ending in a non-space character splits into at least one word.
proof fn lemma_words_of_nonempty(s: Seq<char>)
    requires
        s.len() > 0,
        !is_space_char(s.last()),
    ensures
        words_of(s).len() > 0,
    decreases s.len(),
{
    if s.len() >= 2 && !is_space_char(s[s.len() - 2]) {
        lemma_words_of_nonempty(s.drop_last());
    }
}

/// Every word the split yields is non-empty and free of whitespace.
pub proof fn lemma_words_of_wellformed(s: Seq<char>)
    ensures
        forall|i: int| 0 <= i < words_of(s).len() ==> wf_word(#[trigger] words_of(s)[i]),
    decreases s.len(),
{
    if s.len() > 0 {
        lemma_words_of_wellformed(s.drop_last());
        let rest = words_of(s.drop_last());
        let c = s.last();
        if is_space_char(c) {
        } else if s.len() >= 2 && !is_space_char(s[s.len() - 2]) {
            lemma_words_of_nonempty(s.drop_last());
            let w = rest.last().push(c);
            assert(wf_word(rest.last()));
            assert(forall|j: int| 0 <= j < rest.last().len() ==> w[j] == rest.last()[j]);
            assert(w[w.len() - 1] == c);
            assert(wf_word(w));
        } else {
            assert(wf_word(seq![c]));
        }
    }
}

/// Splits `s` into its whitespace-separated words.
pub fn split_words(s: &str) -> (r: Vec<String>)
    ensures
        r.deep_view() == words_of(s@),
{
    let len = s.unicode_len();
    let mut out: Vec<String> = Vec::new();
    let mut i: usize = 0;
    let mut start: usize = 0;
    let mut in_word = false;
    proof {
        assert(s@.take(0int) =~= Seq::<char>::empty());
        assert(out.deep_view() =~= words_of(s@.take(0int)));
    }
    while i < len
        invariant
            i <= len,
            len == s@.len(),
            in_word ==> start < i && (start == 0 || is_space_char(s@[start - 1])) && (forall|
                k: int,
            |
                start <= k < i ==> !is_space_char(s@[k])) && words_of(s@.take(i as int))
                == out.deep_view().push(s@.subrange(start as int, i as int)),
            !in_word ==> (i == 0 || is_space_char(s@[i - 1])) && words_of(s@.take(i as int))
                == out.deep_view(),
        decreases len - i,
    {
        let c = s.get_char(i);
        proof {
            assert(s@.take(i + 1).drop_last() =~= s@.take(i as int));
            assert(s@.take(i + 1).last() == s@[i as int]);
            if i > 0 {
                assert(s@.take(i + 1)[i - 1] == s@[i - 1]);
            }
        }
        if ' ' == c || '\t' == c || '\n' == c || '\r' == c {
            if in_word {
                let w = s.substring_char(start, i).to_owned();
                let ghost old_dv = out.deep_view();
                out.push(w);
                proof {
                    assert(out.deep_view() =~= old_dv.push(s@.subrange(
                        start as int,
                        i as int,
                    )));
                }
                in_word = false;
            }
        } else {
            if in_word {
                proof {
                    let rest = words_of(s@.take(i as int));
                    assert(rest.last() == s@.subrange(start as int, i as int));
                    assert(s@.subrange(start as int, i as int).push(c) =~= s@.subrange(
                        start as int,
                        i + 1,
                    ));
                    assert(rest.update(rest.len() - 1, rest.last().push(c)) =~= out.deep_view()
                        .push(s@.subrange(start as int, i + 1)));
                }
            } else {
                start = i;
                in_word = true;
                proof {
                    assert(seq![c] =~= s@.subrange(i as int, i + 1));
                    assert(words_of(s@.take(i + 1)) =~= out.deep_view().push(s@.subrange(
                        i as int,
                        i + 1,
                    )));
                }
            }
        }
        i += 1;
    }
    proof {
        assert(s@.take(len as int) =~= s@);
    }
    if in_word {
        let w = s.substring_char(start, len).to_owned();
        let ghost old_dv = out.deep_view();
        out.push(w);
        proof {
            assert(out.deep_view() =~= old_dv.push(s@.subrange(start as int, len as int)));
        }
    }
    out
}

/// `s` with every space character removed; other characters keep their order.
pub open spec fn strip_spaces(s: Seq<char>) -> Seq<char>
    decreases s.len(),
{
    if s.len() == 0 {
        Seq::empty()
    } else if s.last() == ' ' {
        strip_spaces(s.drop_last())
    } else {
        strip_spaces(s.drop_last()).push(s.last())
    }
}

/// Stripping spaces from a prefix of `s` yields a prefix of what stripping
/// spaces from all of `s` yields.
pub proof fn lemma_strip_spaces_mono(s: Seq<char>, i: int)
    requires
        0 <= i <= s.len(),
    ensures
        strip_spaces(s.take(i)).is_prefix_of(strip_spaces(s)),
    decreases s.len() - i,
{
    if i == s.len() {
        assert(s.take(i) =~= s);
    } else {
        lemma_strip_spaces_mono(s, i + 1);
        assert(s.take(i + 1).drop_last() =~= s.take(i));
        assert(s.take(i + 1).last() == s[i]);
        if s[i] == ' ' {
        } else {
            assert(strip_spaces(s.take(i)).is_prefix_of(strip_spaces(s.take(i)).push(s[i])));
        }
    }
}

/// `s` cut at every newline, keeping empty pieces; always at least one piece.
pub open spec fn split_all(s: Seq<char>) -> Seq<Seq<char>>
    decreases s.len(),
{
    if s.len() == 0 {
        seq![Seq::<char>::empty()]
    } else if s.last() == '\n' {
        split_all(s.drop_last()).push(Seq::empty())
    } else {
        let r = split_all(s.drop_last());
        r.update(r.len() - 1, r.last().push(s.last()))
    }
}

pub proof fn lemma_split_all_len(s: Seq<char>)
    ensures
        split_all(s).len() >= 1,
    decreases s.len(),
{
    if s.len() > 0 {
        lemma_split_all_len(s.drop_last());
    }
}

/// The lines of `s`: the pieces between newlines, with the empty piece after
/// a trailing newline dropped.
pub open spec fn lines_of(s: Seq<char>) -> Seq<Seq<char>> {
    let r = split_all(s);
    if r.last().len() == 0 {
        r.drop_last()
    } else {
        r
    }
}

/// Splits `s` into its lines.
pub fn split_lines(s: &str) -> (r: Vec<String>)
    ensures
        r.deep_view() == lines_of(s@),
{
    let len = s.unicode_len();
    let mut out: Vec<String> = Vec::new();
    let mut i: usize = 0;
    let mut start: usize = 0;
    proof {
        assert(s@.take(0int) =~= Seq::<char>::empty());
        assert(s@.subrange(0int, 0int) =~= Seq::<char>::empty());
        assert(out.deep_view().push(s@.subrange(0int, 0int)) =~= split_all(s@.take(0int)));
    }
    while i < len
        invariant
            start <= i <= len,
            len == s@.len(),
            out.deep_view().push(s@.subrange(start as int, i as int)) == split_all(
                s@.take(i as int),
            ),
        decreases len - i,
    {
        let c = s.get_char(i);
        proof {
            assert(s@.take(i + 1).drop_last() =~= s@.take(i as int));
            assert(s@.take(i + 1).last() == s@[i as int]);
            lemma_split_all_len(s@.take(i as int));
        }
        if c == '\n' {
            let w = s.substring_char(start, i).to_owned();
            let ghost old_dv = out.deep_view();
            out.push(w);
            proof {
                assert(s@.subrange(i + 1, i + 1) =~= Seq::<char>::empty());
                assert(out.deep_view().push(s@.subrange(i + 1, i + 1)) =~= split_all(s@.take(
                    i + 1,
                )));
            }
            start = i + 1;
        } else {
            proof {
                let r = split_all(s@.take(i as int));
                assert(r.last() == s@.subrange(start as int, i as int));
                assert(s@.subrange(start as int, i as int).push(c) =~= s@.subrange(
                    start as int,
                    i + 1,
                ));
                assert(out.deep_view().push(s@.subrange(start as int, i + 1)) =~= split_all(
                    s@.take(i + 1),
                ));
            }
        }
        i += 1;
    }
    proof {
        assert(s@.take(len as int) =~= s@);
        lemma_split_all_len(s@);
    }
    if start < len {
        let w = s.substring_char(start, len).to_owned();
        let ghost old_dv = out.deep_view();
        out.push(w);
        proof {
            assert(out.deep_view() =~= old_dv.push(s@.subrange(start as int, len as int)));
        }
    } else {
        proof {
            assert(s@.subrange(start as int, len as int) =~= Seq::<char>::empty());
            assert(out.deep_view() =~= lines_of(s@));
        }
    }
    out
}

} // verus!
