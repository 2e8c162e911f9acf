//! Splitting a CQL script into statements.
//!
//! A script file holds statements separated by semicolons, with arbitrary
//! whitespace around each. [`split_queries`] cuts the text at every
//! semicolon, trims each piece, and keeps the non-empty ones, in order —
//! the statements to execute. The model below pins the result exactly:
//! [`cql_queries`] of the text's characters.

use vstd::prelude::*;

verus! {

/// Whether `c` is white space: the characters the standard library's trim
/// removes.
pub open spec fn is_space(c: char) -> bool {
    ||| c == ' '
    ||| c == '\t'
    ||| c == '\n'
    ||| c == '\u{B}'
    ||| c == '\u{C}'
    ||| c == '\r'
    ||| c == '\u{85}'
    ||| c == '\u{A0}'
    ||| c == '\u{1680}'
    ||| ('\u{2000}' as u32 <= c as u32 && c as u32 <= '\u{200A}' as u32)
    ||| c == '\u{2028}'
    ||| c == '\u{2029}'
    ||| c == '\u{202F}'
    ||| c == '\u{205F}'
    ||| c == '\u{3000}'
}

/// The number of leading white-space characters of `s`.
pub open spec fn leading_spaces(s: Seq<char>) -> nat
    decreases s.len(),
{
    if s.len() == 0 || !is_space(s[0]) {
        0
    } else {
        1 + leading_spaces(s.skip(1))
    }
}

/// The number of trailing white-space characters of `s`.
pub open spec fn trailing_spaces(s: Seq<char>) -> nat
    decreases s.len(),
{
    if s.len() == 0 || !is_space(s.last()) {
        0
    } else {
        1 + trailing_spaces(s.drop_last())
    }
}

/// `s` without its leading and trailing white space.
pub open spec fn trimmed(s: Seq<char>) -> Seq<char> {
    let a = leading_spaces(s);
    let b = s.len() - trailing_spaces(s);
    if a >= b {
        Seq::empty()
    } else {
        s.subrange(a as int, b)
    }
}

/// The position of the first semicolon of `s`, or its length.
pub open spec fn first_semi(s: Seq<char>) -> nat
    decreases s.len(),
{
    if s.len() == 0 || s[0] == ';' {
        0
    } else {
        1 + first_semi(s.skip(1))
    }
}

/// The statements of the script `s`: the pieces between semicolons,
/// trimmed, the empty ones dropped, in order.
pub open spec fn cql_queries(s: Seq<char>) -> Seq<Seq<char>>
    decreases s.len() via cql_queries_decreases
{
    let i = first_semi(s);
    if i >= s.len() {
        if trimmed(s).len() == 0 {
            Seq::empty()
        } else {
            seq![trimmed(s)]
        }
    } else {
        let head = trimmed(s.take(i as int));
        (if head.len() == 0 {
            Seq::<Seq<char>>::empty()
        } else {
            seq![head]
        }) + cql_queries(s.skip(i + 1int))
    }
}

#[via_fn]
proof fn cql_queries_decreases(s: Seq<char>) {
    lemma_first_semi_le_len(s);
}

/// The first-semicolon position never exceeds the length.
pub proof fn lemma_first_semi_le_len(s: Seq<char>)
    ensures
        first_semi(s) <= s.len(),
    decreases s.len(),
{
    if s.len() != 0 && s[0] != ';' {
        lemma_first_semi_le_len(s.skip(1));
    }
}

/// The first-semicolon position is exactly the position of the first
/// semicolon (or the length, if there is none).
proof fn lemma_first_semi_char(s: Seq<char>, c: nat)
    requires
        c <= s.len(),
        forall|j: int| 0 <= j < c ==> (#[trigger] s[j]) != ';',
        c == s.len() || s[c as int] == ';',
    ensures
        first_semi(s) == c,
    decreases s.len(),
{
    if s.len() != 0 && s[0] != ';' {
        let t = s.skip(1);
        assert(forall|j: int| 0 <= j < c - 1 ==> t[j] == s[j + 1]);
        lemma_first_semi_char(t, (c - 1) as nat);
    }
}

/// The leading-space count is exactly the position of the first character
/// that is not white space (or the length, if all are).
proof fn lemma_leading_spaces_char(s: Seq<char>, c: nat)
    requires
        c <= s.len(),
        forall|j: int| 0 <= j < c ==> is_space(#[trigger] s[j]),
        c == s.len() || !is_space(s[c as int]),
    ensures
        leading_spaces(s) == c,
    decreases s.len(),
{
    if s.len() != 0 && is_space(s[0]) {
        let t = s.skip(1);
        assert(forall|j: int| 0 <= j < c - 1 ==> t[j] == s[j + 1]);
        lemma_leading_spaces_char(t, (c - 1) as nat);
    }
}

/// The trailing-space count is exactly the distance from the end to the
/// last character that is not white space (or the length, if all are).
proof fn lemma_trailing_spaces_char(s: Seq<char>, c: nat)
    requires
        c <= s.len(),
        forall|j: int| s.len() - c <= j < s.len() ==> is_space(#[trigger] s[j]),
        c == s.len() || !is_space(s[s.len() - c - 1]),
    ensures
        trailing_spaces(s) == c,
    decreases s.len(),
{
    if s.len() != 0 && is_space(s.last()) {
        let t = s.drop_last();
        lemma_trailing_spaces_char(t, (c - 1) as nat);
    }
}

/// Whether `c` is white space.
fn char_is_space(c: char) -> (r: bool)
    ensures
        r == is_space(c),
{
    let u = c as u32;
    u == 0x20 || (0x9 <= u && u <= 0xD) || u == 0x85 || u == 0xA0 || u == 0x1680 || (0x2000 <= u
        && u <= 0x200A) || u == 0x2028 || u == 0x2029 || u == 0x202F || u == 0x205F || u == 0x3000
}

/// Splits the script `raw` into its statements: the pieces between
/// semicolons, trimmed of surrounding white space, the empty ones
/// dropped, in order.
pub fn split_queries(raw: &str) -> (r: Vec<String>)
    ensures
        r@.map_values(|q: String| q@) == cql_queries(raw@),
{
    let n = raw.unicode_len();
    let mut out: Vec<String> = Vec::new();
    let mut start: usize = 0;
    let mut i: usize = 0;
    proof {
        assert(raw@.skip(0) =~= raw@);
        assert(out@.map_values(|q: String| q@) =~= Seq::<Seq<char>>::empty());
    }
    loop
        invariant_except_break
            start <= i <= n,
            n == raw@.len(),
            forall|j: int| start <= j < i ==> (#[trigger] raw@[j]) != ';',
            cql_queries(raw@) == out@.map_values(|q: String| q@) + cql_queries(
                raw@.skip(start as int),
            ),
        ensures
            out@.map_values(|q: String| q@) == cql_queries(raw@),
        decreases n - i,
    {
        if i == n || raw.get_char(i) == ';' {
            let ghost rest = raw@.skip(start as int);
            let ghost seg = raw@.subrange(start as int, i as int);
            let ghost pre_map = out@.map_values(|q: String| q@);
            proof {
                assert(seg =~= rest.take(i - start));
                assert forall|j: int| 0 <= j < i - start implies (#[trigger] rest[j]) != ';' by {
                    assert(rest[j] == raw@[start + j]);
                }
                if i < n {
                    assert(rest[i - start] == raw@[i as int]);
                }
                lemma_first_semi_char(rest, (i - start) as nat);
            }
            // trim the segment [start, i)
            let mut a = start;
            while a < i && char_is_space(raw.get_char(a))
                invariant
                    start <= a <= i <= n,
                    n == raw@.len(),
                    forall|j: int| start <= j < a ==> is_space(#[trigger] raw@[j]),
                decreases i - a,
            {
                a = a + 1;
            }
            let mut b = i;
            while b > a && char_is_space(raw.get_char(b - 1))
                invariant
                    a <= b <= i <= n,
                    n == raw@.len(),
                    forall|j: int| b <= j < i ==> is_space(#[trigger] raw@[j]),
                decreases b,
            {
                b = b - 1;
            }
            proof {
                assert(forall|j: int| 0 <= j < seg.len() ==> #[trigger] seg[j] == raw@[start + j]);
            }
            if a < b {
                proof {
                    // a bounds the leading and i - b the trailing spaces
                    assert(!is_space(seg[a - start]));
                    assert(!is_space(seg[b - start - 1]));
                    lemma_leading_spaces_char(seg, (a - start) as nat);
                    lemma_trailing_spaces_char(seg, (i - b) as nat);
                    assert(trimmed(seg) =~= raw@.subrange(a as int, b as int));
                }
                let piece = raw.substring_char(a, b).to_owned();
                out.push(piece);
                proof {
                    assert(out@.map_values(|q: String| q@) =~= pre_map.push(trimmed(seg)));
                }
            } else {
                proof {
                    // the whole segment is white space
                    assert(a == i && b == i);
                    lemma_leading_spaces_char(seg, seg.len());
                    assert(trimmed(seg).len() == 0);
                }
            }
            if i == n {
                proof {
                    assert(rest =~= seg);
                    assert(out@.map_values(|q: String| q@) =~= cql_queries(raw@));
                }
                break ;
            }
            proof {
                assert(rest.skip(i - start + 1) =~= raw@.skip(i + 1int));
                assert(cql_queries(rest) == (if trimmed(seg).len() == 0 {
                    Seq::<Seq<char>>::empty()
                } else {
                    seq![trimmed(seg)]
                }) + cql_queries(raw@.skip(i + 1int)));
                assert(cql_queries(raw@) =~= out@.map_values(|q: String| q@) + cql_queries(
                    raw@.skip(i + 1int),
                ));
            }
            start = i + 1;
            i = i + 1;
        } else {
            i = i + 1;
        }
    }
    out
}

} // verus!
