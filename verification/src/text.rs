//! Byte-level text handling for the kernel's text files: line splitting,
//! whitespace splitting and decimal numbers, with the semantics of `str::lines`,
//! `str::split_whitespace` and unsigned `FromStr` on valid UTF-8 input.

use vstd::prelude::*;
use vstd::slice::slice_to_vec;
use vstd::string::StringSliceAdditionalSpecFns;
use vstd::utf8::{encode_utf8, encode_utf8_decode_utf8};

verus! {

/// The byte length of the whitespace character encoded at `i` in UTF-8, or 0
/// when no whitespace character (Unicode `White_Space`) starts there.
pub open spec fn ws_len(s: Seq<u8>, i: int) -> nat {
    if 0 <= i < s.len() && ((9 <= s[i] <= 13) || s[i] == 32) {
        1
    } else if 0 <= i && i + 1 < s.len() && s[i] == 0xc2 && (s[i + 1] == 0x85 || s[i + 1]
        == 0xa0) {
        2
    } else if 0 <= i && i + 2 < s.len() && ((s[i] == 0xe1 && s[i + 1] == 0x9a && s[i + 2]
        == 0x80) || (s[i] == 0xe2 && s[i + 1] == 0x80 && (0x80 <= s[i + 2] <= 0x8a || s[i + 2]
        == 0xa8 || s[i + 2] == 0xa9 || s[i + 2] == 0xaf)) || (s[i] == 0xe2 && s[i + 1] == 0x81
        && s[i + 2] == 0x9f) || (s[i] == 0xe3 && s[i + 1] == 0x80 && s[i + 2] == 0x80)) {
        3
    } else {
        0
    }
}

/// The number of leading bytes of `s` before the first whitespace character.
pub open spec fn word_len(s: Seq<u8>) -> nat
    decreases s.len(),
{
    if s.len() == 0 || ws_len(s, 0) > 0 {
        0
    } else {
        1 + word_len(s.skip(1))
    }
}

/// A word is never longer than the text it starts.
pub proof fn lemma_word_len_bound(s: Seq<u8>)
    ensures
        word_len(s) <= s.len(),
        s.len() > 0 && ws_len(s, 0) == 0 ==> word_len(s) >= 1,
    decreases s.len(),
{
    if s.len() > 0 && ws_len(s, 0) == 0 {
        lemma_word_len_bound(s.skip(1));
    }
}

/// The whitespace-separated words of `s`, in order (`str::split_whitespace`).
pub open spec fn tokens(s: Seq<u8>) -> Seq<Seq<u8>>
    decreases s.len(),
{
    if s.len() == 0 {
        seq![]
    } else if ws_len(s, 0) > 0 {
        tokens(s.skip(ws_len(s, 0) as int))
    } else {
        proof {
            lemma_word_len_bound(s);
        }
        seq![s.take(word_len(s) as int)] + tokens(s.skip(word_len(s) as int))
    }
}

/// The byte length of the whitespace character encoded at `i`, or 0.
pub fn whitespace_len(b: &[u8], i: usize) -> (r: usize)
    requires
        i < b@.len(),
    ensures
        r == ws_len(b@, i as int),
{
    let n = b.len();
    let c = b[i];
    if (9 <= c && c <= 13) || c == 32 {
        1
    } else if i + 1 < n && c == 0xc2 && (b[i + 1] == 0x85 || b[i + 1] == 0xa0) {
        2
    } else if n - i > 2 {
        let c1 = b[i + 1];
        let c2 = b[i + 2];
        if (c == 0xe1 && c1 == 0x9a && c2 == 0x80) || (c == 0xe2 && c1 == 0x80 && ((0x80 <= c2
            && c2 <= 0x8a) || c2 == 0xa8 || c2 == 0xa9 || c2 == 0xaf)) || (c == 0xe2 && c1 == 0x81
            && c2 == 0x9f) || (c == 0xe3 && c1 == 0x80 && c2 == 0x80) {
            3
        } else {
            0
        }
    } else {
        0
    }
}

proof fn lemma_ws_len_skip(s: Seq<u8>, i: int)
    requires
        0 <= i <= s.len(),
    ensures
        ws_len(s.skip(i), 0) == ws_len(s, i),
{
}

/// Splits `b` into its whitespace-separated words.
pub fn split_words(b: &[u8]) -> (r: Vec<Vec<u8>>)
    ensures
        r.deep_view() == tokens(b@),
{
    let n = b.len();
    let mut out: Vec<Vec<u8>> = Vec::new();
    let mut i: usize = 0;
    assert(b@.skip(0) =~= b@);
    while i < n
        invariant
            n == b@.len(),
            i <= n,
            tokens(b@) == out.deep_view() + tokens(b@.skip(i as int)),
        decreases n - i,
    {
        let w = whitespace_len(b, i);
        let ghost rest = b@.skip(i as int);
        proof {
            lemma_ws_len_skip(b@, i as int);
        }
        if w > 0 {
            assert(rest.skip(w as int) =~= b@.skip(i + w));
            i = i + w;
        } else {
            let start = i;
            i = i + 1;
            proof {
                assert(rest.skip(1) =~= b@.skip(i as int));
            }
            while i < n && whitespace_len(b, i) == 0
                invariant
                    n == b@.len(),
                    start < i <= n,
                    rest == b@.skip(start as int),
                    rest.len() > 0,
                    ws_len(rest, 0) == 0,
                    word_len(rest) == (i - start) + word_len(b@.skip(i as int)),
                decreases n - i,
            {
                proof {
                    lemma_ws_len_skip(b@, i as int);
                    assert(b@.skip(i as int).skip(1) =~= b@.skip(i + 1));
                }
                i = i + 1;
            }
            proof {
                if i < n {
                    lemma_ws_len_skip(b@, i as int);
                }
                assert(word_len(rest) == i - start);
                assert(rest.take(word_len(rest) as int) =~= b@.subrange(start as int, i as int));
                assert(rest.skip(word_len(rest) as int) =~= b@.skip(i as int));
            }
            let word = slice_to_vec(&b[start..i]);
            assert(word.deep_view() =~= b@.subrange(start as int, i as int));
            let ghost before = out.deep_view();
            out.push(word);
            proof {
                assert(out.deep_view() =~= before.push(b@.subrange(start as int, i as int)));
                assert(tokens(rest) == seq![b@.subrange(start as int, i as int)] + tokens(
                    b@.skip(i as int),
                ));
                assert(before + tokens(rest) =~= out.deep_view() + tokens(b@.skip(i as int)));
            }
        }
    }
    assert(b@.skip(n as int) =~= Seq::<u8>::empty());
    assert(out.deep_view() + Seq::<Seq<u8>>::empty() =~= out.deep_view());
    out
}


/// The number of leading bytes of `s` before the first line feed.
pub open spec fn line_len(s: Seq<u8>) -> nat
    decreases s.len(),
{
    if s.len() == 0 || s[0] == 10 {
        0
    } else {
        1 + line_len(s.skip(1))
    }
}

/// A line is never longer than the text it starts.
pub proof fn lemma_line_len_bound(s: Seq<u8>)
    ensures
        line_len(s) <= s.len(),
        line_len(s) < s.len() ==> s[line_len(s) as int] == 10,
        forall|j: int| 0 <= j < line_len(s) ==> s[j] != 10,
    decreases s.len(),
{
    if s.len() > 0 && s[0] != 10 {
        lemma_line_len_bound(s.skip(1));
        assert forall|j: int| 0 <= j < line_len(s) implies s[j] != 10 by {
            if j > 0 {
                assert(s[j] == s.skip(1)[j - 1]);
            }
        }
    }
}

/// The lines of `s` (`str::lines`): split at each line feed, a carriage
/// return directly before a line feed removed, no empty line after a final
/// line feed.
pub open spec fn lines(s: Seq<u8>) -> Seq<Seq<u8>>
    decreases s.len(),
{
    if s.len() == 0 {
        seq![]
    } else {
        proof {
            lemma_line_len_bound(s);
        }
        let k = line_len(s) as int;
        if k == s.len() {
            seq![s]
        } else {
            let line = if k > 0 && s[k - 1] == 13 {
                s.take(k - 1)
            } else {
                s.take(k)
            };
            seq![line] + lines(s.skip(k + 1))
        }
    }
}

/// Splits `b` into its lines.
pub fn split_lines(b: &[u8]) -> (r: Vec<Vec<u8>>)
    ensures
        r.deep_view() == lines(b@),
{
    let n = b.len();
    let mut out: Vec<Vec<u8>> = Vec::new();
    let mut i: usize = 0;
    assert(b@.skip(0) =~= b@);
    while i < n
        invariant
            n == b@.len(),
            i <= n,
            lines(b@) == out.deep_view() + lines(b@.skip(i as int)),
        decreases n - i,
    {
        let ghost rest = b@.skip(i as int);
        let start = i;
        while i < n && b[i] != 10
            invariant
                n == b@.len(),
                start <= i <= n,
                rest == b@.skip(start as int),
                line_len(rest) == (i - start) + line_len(b@.skip(i as int)),
            decreases n - i,
        {
            assert(b@.skip(i as int).skip(1) =~= b@.skip(i + 1));
            i = i + 1;
        }
        proof {
            assert(line_len(rest) == i - start);
            lemma_line_len_bound(rest);
        }
        let end = if i > start && b[i - 1] == 13 && i < n {
            i - 1
        } else {
            i
        };
        let line = slice_to_vec(&b[start..end]);
        assert(line.deep_view() =~= b@.subrange(start as int, end as int));
        let ghost before = out.deep_view();
        out.push(line);
        proof {
            assert(out.deep_view() =~= before.push(b@.subrange(start as int, end as int)));
            if i == n {
                assert(rest =~= b@.subrange(start as int, end as int));
                assert(lines(rest) == seq![rest]);
                assert(b@.skip(n as int) =~= Seq::<u8>::empty());
            } else {
                assert(rest.take(end - start) =~= b@.subrange(start as int, end as int));
                assert(rest.skip(i - start + 1) =~= b@.skip(i + 1));
            }
            assert(before + lines(rest) =~= out.deep_view() + lines(
                b@.skip(if i == n { n as int } else { i + 1 }),
            ));
        }
        if i < n {
            i = i + 1;
        }
    }
    assert(b@.skip(n as int) =~= Seq::<u8>::empty());
    assert(out.deep_view() + Seq::<Seq<u8>>::empty() =~= out.deep_view());
    out
}

/// The value of a nonempty run of decimal digits.
pub open spec fn digits_value(d: Seq<u8>) -> nat
    decreases d.len(),
{
    if d.len() == 0 {
        0
    } else {
        digits_value(d.drop_last()) * 10 + (d.last() - 48) as nat
    }
}

/// Every byte of `d` is an ASCII decimal digit.
pub open spec fn all_digits(d: Seq<u8>) -> bool {
    forall|i: int| 0 <= i < d.len() ==> 48 <= #[trigger] d[i] <= 57
}

/// The digits of an unsigned number: one leading `+` is allowed when digits
/// follow it.
pub open spec fn unsigned_digits(t: Seq<u8>) -> Seq<u8> {
    if t.len() >= 2 && t[0] == 43 {
        t.skip(1)
    } else {
        t
    }
}

/// The unsigned number that `t` spells (`FromStr` for the unsigned integer
/// types), when it is at most `max`.
pub open spec fn parse_unsigned(t: Seq<u8>, max: nat) -> Option<nat> {
    let d = unsigned_digits(t);
    if d.len() > 0 && all_digits(d) && digits_value(d) <= max {
        Some(digits_value(d))
    } else {
        None
    }
}

proof fn lemma_digits_prefix(d: Seq<u8>, i: int)
    requires
        0 <= i <= d.len(),
        all_digits(d),
    ensures
        digits_value(d.take(i)) <= digits_value(d),
    decreases d.len() - i,
{
    if i < d.len() {
        lemma_digits_prefix(d, i + 1);
        assert(d.take(i + 1).drop_last() =~= d.take(i));
    } else {
        assert(d.take(i) =~= d);
    }
}

/// Parses `t` as an unsigned 64-bit number.
pub fn parse_u64(t: &[u8]) -> (r: Option<u64>)
    ensures
        r matches Some(v) ==> parse_unsigned(t@, u64::MAX as nat) == Some(v as nat),
        r is None ==> parse_unsigned(t@, u64::MAX as nat) is None,
{
    let n = t.len();
    let start: usize = if n >= 2 && t[0] == 43 {
        1
    } else {
        0
    };
    let ghost d = unsigned_digits(t@);
    assert(d =~= t@.skip(start as int));
    if start == n {
        return None;
    }
    let mut v: u64 = 0;
    let mut i = start;
    assert(d.take(0) =~= Seq::<u8>::empty());
    while i < n
        invariant
            n == t@.len(),
            start <= i <= n,
            d == t@.skip(start as int),
            d == unsigned_digits(t@),
            v == digits_value(d.take(i - start)),
            all_digits(d.take(i - start)),
        decreases n - i,
    {
        let c = t[i];
        if c < 48 || c > 57 {
            assert(d[i - start] == c);
            return None;
        }
        let digit = (c - 48) as u64;
        assert(d.take(i - start + 1).drop_last() =~= d.take(i - start));
        if v > (u64::MAX - digit) / 10 {
            proof {
                let p = d.take(i - start + 1);
                assert(digits_value(p) > u64::MAX);
                if all_digits(d) {
                    lemma_digits_prefix(d, i - start + 1);
                }
            }
            return None;
        }
        v = v * 10 + digit;
        i = i + 1;
        assert(all_digits(d.take(i - start)));
    }
    assert(d.take(n - start) =~= d);
    Some(v)
}

/// Parses `t` as an unsigned 32-bit number.
pub fn parse_u32(t: &[u8]) -> (r: Option<u32>)
    ensures
        r matches Some(v) ==> parse_unsigned(t@, u32::MAX as nat) == Some(v as nat),
        r is None ==> parse_unsigned(t@, u32::MAX as nat) is None,
{
    match parse_u64(t) {
        Some(v) => if v <= u32::MAX as u64 {
            Some(v as u32)
        } else {
            None
        },
        None => None,
    }
}

/// Parses `t` as an unsigned machine-word number.
pub fn parse_usize(t: &[u8]) -> (r: Option<usize>)
    ensures
        r matches Some(v) ==> parse_unsigned(t@, usize::MAX as nat) == Some(v as nat),
        r is None ==> parse_unsigned(t@, usize::MAX as nat) is None,
{
    match parse_u64(t) {
        Some(v) => if v <= usize::MAX as u64 {
            Some(v as usize)
        } else {
            None
        },
        None => None,
    }
}


/// Whether `a` and `b` hold the same bytes.
pub fn same_bytes(a: &[u8], b: &[u8]) -> (r: bool)
    ensures
        r == (a@ == b@),
{
    if a.len() != b.len() {
        return false;
    }
    let mut i: usize = 0;
    while i < a.len()
        invariant
            a@.len() == b@.len(),
            i <= a@.len(),
            a@.take(i as int) == b@.take(i as int),
        decreases a@.len() - i,
    {
        if a[i] != b[i] {
            return false;
        }
        i = i + 1;
        assert(a@.take(i as int) =~= a@.take(i - 1).push(a@[i - 1]));
        assert(b@.take(i as int) =~= b@.take(i - 1).push(b@[i - 1]));
    }
    assert(a@.take(i as int) =~= a@);
    assert(b@.take(i as int) =~= b@);
    true
}

/// Two texts are equal exactly when their UTF-8 encodings are.
pub proof fn lemma_encoding_injective(a: Seq<char>, b: Seq<char>)
    ensures
        (encode_utf8(a) == encode_utf8(b)) == (a == b),
{
    encode_utf8_decode_utf8(a);
    encode_utf8_decode_utf8(b);
}

/// Whether two texts are equal.
pub fn same_text(a: &str, b: &str) -> (r: bool)
    ensures
        r == (a@ == b@),
{
    proof {
        lemma_encoding_injective(a@, b@);
    }
    same_bytes(a.as_bytes(), b.as_bytes())
}

/// `needle` occurs in `hay` starting at byte `k`.
pub open spec fn occurs_at(needle: Seq<u8>, hay: Seq<u8>, k: int) -> bool {
    0 <= k && k + needle.len() <= hay.len() && hay.subrange(k, k + needle.len()) == needle
}

/// `needle` occurs somewhere in `hay` (`str::contains` with a text pattern).
pub open spec fn is_infix(needle: Seq<u8>, hay: Seq<u8>) -> bool {
    exists|k: int| occurs_at(needle, hay, k)
}

/// Whether `needle` occurs in `hay` starting at byte `k`.
fn matches_at(needle: &[u8], hay: &[u8], k: usize) -> (r: bool)
    requires
        k + needle@.len() <= hay@.len(),
    ensures
        r == occurs_at(needle@, hay@, k as int),
{
    let n = hay.len();
    let mut j: usize = 0;
    while j < needle.len()
        invariant
            n == hay@.len(),
            k + needle@.len() <= hay@.len(),
            j <= needle@.len(),
            forall|t: int| 0 <= t < j ==> hay@[k + t] == needle@[t],
        decreases needle@.len() - j,
    {
        if hay[k + j] != needle[j] {
            assert(hay@.subrange(k as int, k + needle@.len())[j as int] != needle@[j as int]);
            return false;
        }
        j = j + 1;
    }
    assert(hay@.subrange(k as int, k + needle@.len()) =~= needle@);
    true
}

/// Whether `needle` occurs in `hay`.
pub fn has_infix(needle: &[u8], hay: &[u8]) -> (r: bool)
    ensures
        r == is_infix(needle@, hay@),
{
    if needle.len() > hay.len() {
        return false;
    }
    if needle.len() == 0 {
        assert(hay@.subrange(0, 0) =~= needle@);
        assert(occurs_at(needle@, hay@, 0));
        return true;
    }
    let n = hay.len();
    let last = n - needle.len();
    let mut k: usize = 0;
    while k <= last
        invariant
            n == hay@.len(),
            needle@.len() >= 1,
            last == hay@.len() - needle@.len(),
            k <= last + 1,
            forall|t: int| 0 <= t < k ==> !occurs_at(needle@, hay@, t),
        decreases last + 1 - k,
    {
        if matches_at(needle, hay, k) {
            return true;
        }
        k = k + 1;
    }
    false
}

/// Whether `hay` begins with `prefix` (`str::starts_with` with a text pattern).
pub fn has_prefix(prefix: &[u8], hay: &[u8]) -> (r: bool)
    ensures
        r == prefix@.is_prefix_of(hay@),
{
    if prefix.len() > hay.len() {
        return false;
    }
    let r = matches_at(prefix, hay, 0);
    assert(hay@.subrange(0, prefix@.len() as int) =~= hay@.take(prefix@.len() as int));
    r
}

} // verus!
