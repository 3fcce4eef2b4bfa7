//! Byte- and character-level text utilities: ASCII case folding, substring
//! search, prefix tests, decimal parsing, and a lexicographic order on
//! character sequences. All searching and matching in this crate is defined
//! over these spec functions.

use vstd::prelude::*;

verus! {

use vstd::string::StringSliceAdditionalSpecFns;
use vstd::string::StrSliceExecFns;

/// The UTF-8 bytes of a character sequence; `s.spec_bytes()` for the view of
/// an owned `String`.
pub open spec fn bytes_of(s: Seq<char>) -> Seq<u8> {
    vstd::utf8::encode_utf8(s)
}

// ---------- ASCII case folding ----------

/// Lower-case a single byte when it is an ASCII upper-case letter.
pub open spec fn lower_byte(b: u8) -> u8 {
    if 65 <= b && b <= 90 {
        (b + 32) as u8
    } else {
        b
    }
}

/// ASCII-lower-case a byte sequence.
pub open spec fn lower_bytes(s: Seq<u8>) -> Seq<u8> {
    s.map_values(|b: u8| lower_byte(b))
}

fn lower_byte_exec(b: u8) -> (r: u8)
    ensures
        r == lower_byte(b),
{
    if 65 <= b && b <= 90 {
        b + 32
    } else {
        b
    }
}

/// ASCII-lower-case the UTF-8 bytes of a string.
pub fn lower_bytes_of(s: &str) -> (r: Vec<u8>)
    ensures
        r@ == lower_bytes(s.spec_bytes()),
{
    let bytes = s.as_bytes();
    let mut out: Vec<u8> = Vec::new();
    let mut i: usize = 0;
    while i < bytes.len()
        invariant
            i <= bytes@.len(),
            bytes@ == s.spec_bytes(),
            out@ == lower_bytes(s.spec_bytes().take(i as int)),
        decreases bytes@.len() - i,
    {
        let b = bytes[i];
        out.push(lower_byte_exec(b));
        i = i + 1;
        assert(s.spec_bytes().take(i as int) =~= s.spec_bytes().take(i - 1).push(b));
        assert(lower_bytes(s.spec_bytes().take(i as int)) =~= lower_bytes(
            s.spec_bytes().take(i - 1),
        ).push(lower_byte(b)));
    }
    assert(s.spec_bytes().take(i as int) =~= s.spec_bytes());
    out
}

// ---------- Substring search over bytes ----------

/// `needle` occurs in `hay` starting at position `i`.
pub open spec fn match_at(hay: Seq<u8>, needle: Seq<u8>, i: int) -> bool {
    &&& 0 <= i
    &&& i + needle.len() <= hay.len()
    &&& hay.subrange(i, i + needle.len() as int) == needle
}

/// `needle` occurs somewhere in `hay`.
pub open spec fn contains_bytes(hay: Seq<u8>, needle: Seq<u8>) -> bool {
    exists|i: int| match_at(hay, needle, i)
}

/// Substring search on byte vectors.
pub fn find_sub(hay: &Vec<u8>, needle: &Vec<u8>) -> (r: bool)
    ensures
        r == contains_bytes(hay@, needle@),
{
    if needle.len() > hay.len() {
        assert(forall|i: int| !match_at(hay@, needle@, i));
        return false;
    }
    let mut i: usize = 0;
    while i <= hay.len() - needle.len()
        invariant
            needle@.len() <= hay@.len(),
            i <= hay@.len() - needle@.len() + 1,
            forall|k: int| 0 <= k < i ==> !match_at(hay@, needle@, k),
        decreases hay@.len() - needle@.len() + 1 - i,
    {
        let mut j: usize = 0;
        let mut eq = true;
        let hlen = hay.len();
        assert(hay@.subrange(i as int, i as int) =~= needle@.take(0));
        while j < needle.len()
            invariant
                needle@.len() <= hay@.len(),
                i + needle@.len() <= hay@.len(),
                hlen == hay@.len(),
                j <= needle@.len(),
                eq == (hay@.subrange(i as int, i + j as int) == needle@.take(j as int)),
            decreases needle@.len() - j,
        {
            let ghost pre_eq = eq;
            let ghost jj = j as int;
            if hay[i + j] != needle[j] {
                eq = false;
            }
            j = j + 1;
            proof {
                let h = hay@.subrange(i as int, i + j as int);
                let n = needle@.take(j as int);
                assert(h.drop_last() =~= hay@.subrange(i as int, i + jj));
                assert(n.drop_last() =~= needle@.take(jj));
                if pre_eq && hay@[i + jj] == needle@[jj] {
                    assert(h =~= n);
                } else {
                    if h == n {
                        assert(h.drop_last() == n.drop_last());
                        assert(h.last() == n.last());
                        assert(false);
                    }
                }
            }
        }
        assert(needle@.take(needle@.len() as int) =~= needle@);
        if eq {
            assert(match_at(hay@, needle@, i as int));
            return true;
        }
        assert(!match_at(hay@, needle@, i as int));
        i = i + 1;
    }
    proof {
        assert forall|k: int| !(#[trigger] match_at(hay@, needle@, k)) by {
            if 0 <= k && k + needle@.len() <= hay@.len() {
                assert(k < i);
            }
        }
    }
    return false;
}

/// Case-insensitive (ASCII) substring test on strings, at the byte level.
pub fn contains_ci(hay: &str, needle: &str) -> (r: bool)
    ensures
        r == contains_bytes(lower_bytes(hay.spec_bytes()), lower_bytes(needle.spec_bytes())),
{
    let h = lower_bytes_of(hay);
    let n = lower_bytes_of(needle);
    find_sub(&h, &n)
}

/// Case-sensitive substring test on strings, at the byte level.
pub fn contains_sub(hay: &str, needle: &str) -> (r: bool)
    ensures
        r == contains_bytes(hay.spec_bytes(), needle.spec_bytes()),
{
    let h = hay.as_bytes_vec();
    let n = needle.as_bytes_vec();
    find_sub(&h, &n)
}

// ---------- Prefix tests ----------

/// `p` is a prefix of `s`.
pub open spec fn starts_with_bytes(s: Seq<u8>, p: Seq<u8>) -> bool {
    p.len() <= s.len() && s.take(p.len() as int) == p
}

/// Prefix test on strings, at the byte level.
pub fn starts_with(s: &str, p: &str) -> (r: bool)
    ensures
        r == starts_with_bytes(s.spec_bytes(), p.spec_bytes()),
{
    let sb = s.as_bytes();
    let pb = p.as_bytes();
    if pb.len() > sb.len() {
        return false;
    }
    let mut j: usize = 0;
    while j < pb.len()
        invariant
            pb@.len() <= sb@.len(),
            j <= pb@.len(),
            sb@ == s.spec_bytes(),
            pb@ == p.spec_bytes(),
            forall|k: int| 0 <= k < j ==> sb@[k] == pb@[k],
        decreases pb@.len() - j,
    {
        if sb[j] != pb[j] {
            assert(s.spec_bytes().take(p.spec_bytes().len() as int)[j as int] != p.spec_bytes()[j as int]);
            return false;
        }
        j = j + 1;
    }
    assert(s.spec_bytes().take(p.spec_bytes().len() as int) =~= p.spec_bytes());
    return true;
}

// ---------- Decimal parsing ----------

/// The byte is an ASCII decimal digit.
pub open spec fn is_digit(b: u8) -> bool {
    48 <= b && b <= 57
}

/// Every byte of the sequence is an ASCII decimal digit.
pub open spec fn all_digits(s: Seq<u8>) -> bool {
    forall|i: int| 0 <= i < s.len() ==> is_digit(#[trigger] s[i])
}

/// The numeric value of a sequence of ASCII decimal digits.
pub open spec fn dec_val(s: Seq<u8>) -> nat
    decreases s.len(),
{
    if s.len() == 0 {
        0
    } else {
        (dec_val(s.drop_last()) * 10 + (s.last() - 48)) as nat
    }
}

/// A digit string denotes a value no smaller than any of its prefixes' values.
proof fn lemma_dec_val_prefix_le(s: Seq<u8>, i: int)
    requires
        0 <= i <= s.len(),
        all_digits(s),
    ensures
        dec_val(s.take(i)) <= dec_val(s),
    decreases s.len() - i,
{
    if i == s.len() {
        assert(s.take(i) =~= s);
    } else {
        lemma_dec_val_prefix_le(s, i + 1);
        let t = s.take(i + 1);
        assert(t.drop_last() =~= s.take(i));
        assert(dec_val(s.take(i)) <= dec_val(s.take(i)) * 10 + (t.last() - 48)) by (nonlinear_arith)
            requires is_digit(t.last() as u8),
        ;
    }
}

/// Parse an unsigned decimal number from bytes. Returns the value exactly
/// when the input is a non-empty, all-digit string whose value fits in `u64`.
pub fn parse_u64(s: &Vec<u8>) -> (r: Option<u64>)
    ensures
        match r {
            Some(v) => s@.len() > 0 && all_digits(s@) && v == dec_val(s@),
            None => s@.len() == 0 || !all_digits(s@) || dec_val(s@) > u64::MAX,
        },
{
    if s.len() == 0 {
        return None;
    }
    let mut acc: u64 = 0;
    let mut i: usize = 0;
    while i < s.len()
        invariant
            i <= s@.len(),
            all_digits(s@.take(i as int)),
            acc == dec_val(s@.take(i as int)),
        decreases s@.len() - i,
    {
        let b = s[i];
        if b < 48 || b > 57 {
            assert(!all_digits(s@)) by {
                assert(!is_digit(s@[i as int]));
            }
            return None;
        }
        let d: u64 = (b - 48) as u64;
        let ghost pre = acc;
        if acc > (u64::MAX - d) / 10 {
            proof {
                assert(pre * 10 + d > u64::MAX) by (nonlinear_arith)
                    requires
                        pre > (u64::MAX - d) / 10,
                        d <= 9u64,
                ;
                assert(s@.take(i + 1).drop_last() =~= s@.take(i as int));
                assert(dec_val(s@.take(i + 1)) == pre * 10 + d);
                if all_digits(s@) {
                    lemma_dec_val_prefix_le(s@, i + 1);
                }
            }
            return None;
        }
        proof {
            assert(pre * 10 + d <= u64::MAX) by (nonlinear_arith)
                requires
                    pre <= (u64::MAX - d) / 10,
                    d <= 9u64,
            ;
        }
        acc = acc * 10 + d;
        i = i + 1;
        proof {
            assert(s@.take(i as int).drop_last() =~= s@.take(i - 1));
            assert(forall|k: int|
                0 <= k < i ==> is_digit(#[trigger] s@.take(i as int)[k]) == is_digit(s@[k]));
        }
    }
    assert(s@.take(i as int) =~= s@);
    Some(acc)
}

// ---------- Decimal parsing over characters ----------

/// The character is an ASCII decimal digit.
pub open spec fn is_digit_char(c: char) -> bool {
    48 <= c as u32 && c as u32 <= 57
}

/// Every character of the sequence is an ASCII decimal digit.
pub open spec fn all_digit_chars(s: Seq<char>) -> bool {
    forall|i: int| 0 <= i < s.len() ==> is_digit_char(#[trigger] s[i])
}

/// The numeric value of a sequence of ASCII decimal digit characters.
pub open spec fn chars_val(s: Seq<char>) -> nat
    decreases s.len(),
{
    if s.len() == 0 {
        0
    } else {
        (chars_val(s.drop_last()) * 10 + (s.last() as u32 - 48)) as nat
    }
}

proof fn lemma_chars_val_prefix_le(s: Seq<char>, i: int)
    requires
        0 <= i <= s.len(),
        all_digit_chars(s),
    ensures
        chars_val(s.take(i)) <= chars_val(s),
    decreases s.len() - i,
{
    if i == s.len() {
        assert(s.take(i) =~= s);
    } else {
        lemma_chars_val_prefix_le(s, i + 1);
        let t = s.take(i + 1);
        assert(t.drop_last() =~= s.take(i));
        assert(chars_val(s.take(i)) <= chars_val(s.take(i)) * 10 + (t.last() as u32 - 48))
            by (nonlinear_arith)
            requires is_digit_char(t.last()),
        ;
    }
}

/// The number a digit text denotes, within `u32`: defined exactly when the
/// text is non-empty, all digits, and in range.
pub open spec fn num_u32(s: Seq<char>) -> Option<u32> {
    if s.len() > 0 && all_digit_chars(s) && chars_val(s) <= u32::MAX {
        Some(chars_val(s) as u32)
    } else {
        None
    }
}

/// Parse an unsigned decimal number from characters, within `u32`.
pub fn parse_num_u32(s: &str) -> (r: Option<u32>)
    ensures
        r == num_u32(s@),
{
    let len = s.unicode_len();
    if len == 0 {
        return None;
    }
    let mut acc: u64 = 0;
    let mut i: usize = 0;
    while i < len
        invariant
            i <= len,
            len == s@.len(),
            all_digit_chars(s@.take(i as int)),
            acc == chars_val(s@.take(i as int)),
            acc <= u32::MAX,
        decreases len - i,
    {
        let c = s.get_char(i);
        let cv = c as u32;
        if cv < 48 || cv > 57 {
            assert(!all_digit_chars(s@)) by {
                assert(!is_digit_char(s@[i as int]));
            }
            return None;
        }
        let d: u64 = (cv - 48) as u64;
        let ghost pre = acc;
        acc = acc * 10 + d;
        i = i + 1;
        proof {
            assert(s@.take(i as int).drop_last() =~= s@.take(i - 1));
            assert(forall|k: int|
                0 <= k < i ==> is_digit_char(#[trigger] s@.take(i as int)[k]) == is_digit_char(
                    s@[k],
                ));
        }
        if acc > u32::MAX as u64 {
            proof {
                if all_digit_chars(s@) && chars_val(s@) <= u32::MAX {
                    lemma_chars_val_prefix_le(s@, i as int);
                }
            }
            return None;
        }
    }
    assert(s@.take(i as int) =~= s@);
    Some(acc as u32)
}

/// The signed number a text denotes, within `i32`: an optional minus sign,
/// then digits.
pub open spec fn num_i32(s: Seq<char>) -> Option<i32> {
    if s.len() > 0 && s[0] == '-' {
        let m = s.drop_first();
        if m.len() > 0 && all_digit_chars(m) && chars_val(m) <= 0x8000_0000 {
            Some((-(chars_val(m) as int)) as i32)
        } else {
            None
        }
    } else if s.len() > 0 && all_digit_chars(s) && chars_val(s) <= i32::MAX {
        Some(chars_val(s) as i32)
    } else {
        None
    }
}

/// Parse a signed decimal number, within `i32`.
pub fn parse_num_i32(s: &str) -> (r: Option<i32>)
    ensures
        r == num_i32(s@),
{
    let len = s.unicode_len();
    if len == 0 {
        return None;
    }
    if s.get_char(0) == '-' {
        let rest = s.substring_char(1, len);
        proof {
            assert(rest@ =~= s@.drop_first());
        }
        match parse_num_u32(rest) {
            Some(v) => {
                if v <= 0x8000_0000u32 {
                    proof {
                        assert(chars_val(s@.drop_first()) <= 0x8000_0000);
                    }
                    if v == 0x8000_0000u32 {
                        Some(i32::MIN)
                    } else {
                        Some(-(v as i32))
                    }
                } else {
                    None
                }
            },
            None => {
                proof {
                    if num_i32(s@) is Some {
                        assert(chars_val(s@.drop_first()) <= 0x8000_0000);
                        assert(0x8000_0000 <= u32::MAX);
                    }
                }
                None
            },
        }
    } else {
        match parse_num_u32(s) {
            Some(v) => {
                if v <= i32::MAX as u32 {
                    Some(v as i32)
                } else {
                    None
                }
            },
            None => None,
        }
    }
}

/// The text with its leading and trailing double quotes dropped.
pub open spec fn trim_quotes(s: Seq<char>) -> Seq<char>
    decreases s.len(),
{
    if s.len() > 0 && s[0] == '"' {
        trim_quotes(s.drop_first())
    } else if s.len() > 0 && s.last() == '"' {
        trim_quotes(s.drop_last())
    } else {
        s
    }
}

/// Trim leading and trailing double quotes.
pub fn trim_quotes_str(s: &str) -> (r: String)
    ensures
        r@ == trim_quotes(s@),
{
    let len = s.unicode_len();
    let mut a: usize = 0;
    let mut b: usize = len;
    assert(s@.subrange(0, len as int) =~= s@);
    while a < b && s.get_char(a) == '"'
        invariant
            a <= b <= len,
            b == len,
            len == s@.len(),
            trim_quotes(s@) == trim_quotes(s@.subrange(a as int, b as int)),
        decreases b - a,
    {
        proof {
            let t = s@.subrange(a as int, b as int);
            assert(t[0] == s@[a as int]);
            assert(t.drop_first() =~= s@.subrange(a + 1, b as int));
        }
        a = a + 1;
    }
    while b > a && s.get_char(b - 1) == '"'
        invariant
            a <= b <= len,
            len == s@.len(),
            trim_quotes(s@) == trim_quotes(s@.subrange(a as int, b as int)),
            a < b ==> s@[a as int] != '"',
        decreases b,
    {
        proof {
            let t = s@.subrange(a as int, b as int);
            assert(t.last() == s@[b - 1]);
            assert(t[0] == s@[a as int]);
            assert(t.drop_last() =~= s@.subrange(a as int, b - 1));
        }
        b = b - 1;
    }
    proof {
        let t = s@.subrange(a as int, b as int);
        if t.len() > 0 {
            assert(t[0] == s@[a as int]);
            assert(t.last() == s@[b - 1]);
        }
        assert(trim_quotes(t) == t);
    }
    s.substring_char(a, b).to_owned()
}

// ---------- Lexicographic order on character sequences ----------

/// Strict lexicographic order on character sequences, by Unicode scalar value.
pub open spec fn lex_lt(a: Seq<char>, b: Seq<char>) -> bool
    decreases a.len(),
{
    if b.len() == 0 {
        false
    } else if a.len() == 0 {
        true
    } else if (a[0] as u32) < (b[0] as u32) {
        true
    } else if a[0] == b[0] {
        lex_lt(a.drop_first(), b.drop_first())
    } else {
        false
    }
}

/// Exactly one of `a < b`, `b < a`, `a == b` holds.
pub proof fn lemma_lex_trichotomy(a: Seq<char>, b: Seq<char>)
    ensures
        lex_lt(a, b) ==> !lex_lt(b, a) && a != b,
        !lex_lt(a, b) && !lex_lt(b, a) ==> a == b,
    decreases a.len(),
{
    if a.len() == 0 || b.len() == 0 {
        if a.len() == 0 && b.len() == 0 {
            assert(a =~= b);
        }
    } else {
        if a[0] == b[0] {
            lemma_lex_trichotomy(a.drop_first(), b.drop_first());
            if !lex_lt(a, b) && !lex_lt(b, a) {
                assert(a.drop_first() == b.drop_first());
                assert(a.len() == b.len());
                assert forall|i: int| 0 <= i < a.len() implies a[i] == b[i] by {
                    if i >= 1 {
                        assert(a[i] == a.drop_first()[i - 1]);
                        assert(b[i] == b.drop_first()[i - 1]);
                    }
                }
                assert(a =~= b);
            }
            if lex_lt(a, b) {
                assert(a.drop_first() != b.drop_first());
            }
        } else {
            vstd::utf8::char_u32_cast(a[0], a[0] as u32);
            vstd::utf8::char_u32_cast(b[0], b[0] as u32);
        }
    }
}

/// Lexicographic order is transitive.
pub proof fn lemma_lex_trans(a: Seq<char>, b: Seq<char>, c: Seq<char>)
    requires
        lex_lt(a, b),
        lex_lt(b, c),
    ensures
        lex_lt(a, c),
    decreases a.len(),
{
    if b.len() == 0 || c.len() == 0 {
    } else if a.len() == 0 {
    } else {
        if a[0] == b[0] && b[0] == c[0] {
            lemma_lex_trans(a.drop_first(), b.drop_first(), c.drop_first());
        }
    }
}

// ---------- Splitting ----------

/// The position of the first occurrence of a character, or the length when
/// absent.
pub open spec fn first_index(s: Seq<char>, c: char) -> int
    decreases s.len(),
{
    if s.len() == 0 {
        0
    } else if s[0] == c {
        0
    } else {
        1 + first_index(s.drop_first(), c)
    }
}

/// `first_index` names the first occurrence.
pub proof fn lemma_first_index(s: Seq<char>, c: char, i: int)
    requires
        0 <= i <= s.len(),
        forall|j: int| 0 <= j < i ==> s[j] != c,
        i < s.len() ==> s[i] == c,
    ensures
        first_index(s, c) == if i < s.len() {
            i
        } else {
            s.len() as int
        },
    decreases s.len(),
{
    if s.len() > 0 {
        if i == 0 {
        } else {
            lemma_first_index(s.drop_first(), c, i - 1);
        }
    }
}

/// What `first_index` returns: the position of the first occurrence, within
/// bounds, with nothing equal before it.
pub proof fn lemma_first_index_props(s: Seq<char>, c: char)
    ensures
        0 <= first_index(s, c) <= s.len(),
        first_index(s, c) < s.len() ==> s[first_index(s, c)] == c,
        forall|j: int| 0 <= j < first_index(s, c) ==> s[j] != c,
    decreases s.len(),
{
    if s.len() > 0 && s[0] != c {
        lemma_first_index_props(s.drop_first(), c);
        assert forall|j: int| 0 <= j < first_index(s, c) implies s[j] != c by {
            if j >= 1 {
                assert(s.drop_first()[j - 1] == s[j]);
            }
        }
    }
}

/// The lines of a text, as line iteration yields them: pieces between
/// newlines, with no piece after a terminating newline.
pub open spec fn spec_lines(s: Seq<char>) -> Seq<Seq<char>>
    decreases s.len(),
{
    if s.len() == 0 {
        Seq::empty()
    } else {
        let i = first_index(s, '\n');
        if 0 <= i < s.len() {
            seq![s.take(i)] + spec_lines(s.skip(i + 1))
        } else {
            seq![s]
        }
    }
}

/// Split a text into its lines.
pub fn split_lines(s: &str) -> (r: Vec<String>)
    ensures
        r@.map_values(|x: String| x@) == spec_lines(s@),
{
    let len = s.unicode_len();
    let mut out: Vec<String> = Vec::new();
    let mut p: usize = 0;
    proof {
        assert(s@.skip(0) =~= s@);
        assert(out@.map_values(|x: String| x@) =~= Seq::<Seq<char>>::empty());
    }
    while p < len
        invariant
            p <= len,
            len == s@.len(),
            spec_lines(s@) =~= out@.map_values(|x: String| x@) + spec_lines(s@.skip(p as int)),
        decreases len - p,
    {
        let ghost pre = out@.map_values(|x: String| x@);
        let mut q: usize = p;
        while q < len && s.get_char(q) != '\n'
            invariant
                p <= q <= len,
                len == s@.len(),
                forall|j: int| p <= j < q ==> s@[j] != '\n',
            decreases len - q,
        {
            q = q + 1;
        }
        let piece = s.substring_char(p, q).to_owned();
        out.push(piece);
        proof {
            let rest = s@.skip(p as int);
            lemma_first_index(rest, '\n', q - p);
            assert(forall|j: int| 0 <= j < q - p ==> rest[j] != '\n');
            assert(q < len ==> rest[q - p] == '\n');
            assert(out@.map_values(|x: String| x@) =~= pre.push(s@.subrange(p as int, q as int)));
            assert(rest.take(q - p) =~= s@.subrange(p as int, q as int));
            if q < len {
                assert(rest.skip(q - p + 1) =~= s@.skip(q + 1));
                assert(spec_lines(rest) =~= seq![rest.take(q - p)] + spec_lines(
                    s@.skip(q + 1),
                ));
            } else {
                assert(first_index(rest, '\n') == rest.len());
                assert(spec_lines(rest) =~= seq![rest]);
                assert(rest =~= rest.take(q - p));
            }
        }
        if q < len {
            p = q + 1;
        } else {
            p = len;
            proof {
                assert(s@.skip(len as int) =~= Seq::<char>::empty());
            }
        }
    }
    proof {
        assert(s@.skip(p as int).len() == 0);
        assert(spec_lines(s@) =~= out@.map_values(|x: String| x@));
    }
    out
}

/// A whitespace character, as field splitting sees it.
pub open spec fn is_space(c: char) -> bool {
    c == ' ' || c == '\t' || c == '\r' || c == '\n'
}

fn is_space_exec(c: char) -> (r: bool)
    ensures
        r == is_space(c),
{
    c == ' ' || c == '\t' || c == '\r' || c == '\n'
}

/// The whitespace-separated fields of a text: maximal runs of non-space
/// characters, in order.
pub open spec fn spec_fields(s: Seq<char>) -> Seq<Seq<char>>
    decreases s.len(),
{
    if s.len() == 0 {
        Seq::empty()
    } else if is_space(s[0]) {
        spec_fields(s.drop_first())
    } else {
        let i = first_space(s);
        if 1 <= i < s.len() {
            seq![s.take(i)] + spec_fields(s.skip(i))
        } else {
            seq![s]
        }
    }
}

/// The position of the first whitespace character, or the length when there
/// is none.
pub open spec fn first_space(s: Seq<char>) -> int
    decreases s.len(),
{
    if s.len() == 0 {
        0
    } else if is_space(s[0]) {
        0
    } else {
        1 + first_space(s.drop_first())
    }
}

/// `first_space` names the first whitespace position.
pub proof fn lemma_first_space(s: Seq<char>, i: int)
    requires
        0 <= i <= s.len(),
        forall|j: int| 0 <= j < i ==> !is_space(s[j]),
        i < s.len() ==> is_space(s[i]),
    ensures
        first_space(s) == if i < s.len() {
            i
        } else {
            s.len() as int
        },
    decreases s.len(),
{
    if s.len() > 0 {
        if i == 0 {
        } else {
            lemma_first_space(s.drop_first(), i - 1);
        }
    }
}

/// Skipping leading whitespace does not change the fields.
proof fn lemma_fields_skip_space(s: Seq<char>, i: int)
    requires
        0 <= i <= s.len(),
        forall|j: int| 0 <= j < i ==> is_space(s[j]),
    ensures
        spec_fields(s) == spec_fields(s.skip(i)),
    decreases i,
{
    if i > 0 {
        assert(spec_fields(s) == spec_fields(s.drop_first()));
        assert(s.drop_first() =~= s.skip(1));
        lemma_fields_skip_space(s.skip(1), i - 1);
        assert(s.skip(1).skip(i - 1) =~= s.skip(i));
    } else {
        assert(s.skip(0) =~= s);
    }
}

/// Split a text into its whitespace-separated fields.
pub fn split_fields(s: &str) -> (r: Vec<String>)
    ensures
        r@.map_values(|x: String| x@) == spec_fields(s@),
{
    let len = s.unicode_len();
    let mut out: Vec<String> = Vec::new();
    let mut p: usize = 0;
    proof {
        assert(s@.skip(0) =~= s@);
        assert(out@.map_values(|x: String| x@) =~= Seq::<Seq<char>>::empty());
    }
    while p < len
        invariant
            p <= len,
            len == s@.len(),
            spec_fields(s@) =~= out@.map_values(|x: String| x@) + spec_fields(s@.skip(p as int)),
        decreases len - p,
    {
        if is_space_exec(s.get_char(p)) {
            proof {
                let rest = s@.skip(p as int);
                assert(rest[0] == s@[p as int]);
                assert(spec_fields(rest) == spec_fields(rest.drop_first()));
                assert(rest.drop_first() =~= s@.skip(p + 1));
            }
            p = p + 1;
        } else {
            let ghost pre = out@.map_values(|x: String| x@);
            let mut q: usize = p;
            while q < len && !is_space_exec(s.get_char(q))
                invariant
                    p <= q <= len,
                    len == s@.len(),
                    forall|j: int| p <= j < q ==> !is_space(s@[j]),
                decreases len - q,
            {
                q = q + 1;
            }
            let piece = s.substring_char(p, q).to_owned();
            out.push(piece);
            proof {
                let rest = s@.skip(p as int);
                lemma_first_space(rest, q - p);
                assert(forall|j: int| 0 <= j < q - p ==> !is_space(rest[j]));
                assert(q < len ==> is_space(rest[q - p]));
                assert(!is_space(rest[0]));
                assert(out@.map_values(|x: String| x@) =~= pre.push(
                    s@.subrange(p as int, q as int),
                ));
                assert(rest.take(q - p) =~= s@.subrange(p as int, q as int));
                if q < len {
                    assert(rest.skip(q - p) =~= s@.skip(q as int));
                    assert(spec_fields(rest) =~= seq![rest.take(q - p)] + spec_fields(
                        s@.skip(q as int),
                    ));
                } else {
                    assert(first_space(rest) == rest.len());
                    assert(spec_fields(rest) =~= seq![rest]);
                    assert(rest =~= rest.take(q - p));
                    assert(s@.skip(q as int).len() == 0);
                }
            }
            p = q;
            if p == len {
                proof {
                    assert(s@.skip(len as int) =~= Seq::<char>::empty());
                }
            }
        }
    }
    proof {
        assert(s@.skip(p as int).len() == 0);
        assert(spec_fields(s@) =~= out@.map_values(|x: String| x@));
    }
    out
}

/// A text with its leading and trailing whitespace dropped.
pub open spec fn spec_trim(s: Seq<char>) -> Seq<char>
    decreases s.len(),
{
    if s.len() == 0 {
        s
    } else if is_space(s[0]) {
        spec_trim(s.drop_first())
    } else if is_space(s.last()) {
        spec_trim(s.drop_last())
    } else {
        s
    }
}

/// Trim leading and trailing whitespace.
pub fn trim_str(s: &str) -> (r: String)
    ensures
        r@ == spec_trim(s@),
{
    let len = s.unicode_len();
    let mut a: usize = 0;
    while a < len && is_space_exec(s.get_char(a))
        invariant
            a <= len,
            len == s@.len(),
            forall|j: int| 0 <= j < a ==> is_space(s@[j]),
        decreases len - a,
    {
        a = a + 1;
    }
    let mut b: usize = len;
    while b > a && is_space_exec(s.get_char(b - 1))
        invariant
            a <= b <= len,
            len == s@.len(),
            forall|j: int| 0 <= j < a ==> is_space(s@[j]),
            forall|j: int| b <= j < len ==> is_space(s@[j]),
            a < len ==> !is_space(s@[a as int]),
        decreases b,
    {
        b = b - 1;
    }
    let r = s.substring_char(a, b).to_owned();
    proof {
        let t = s@.skip(a as int);
        lemma_trim_front(s@, a as int);
        if a == b {
            assert(forall|j: int| 0 <= j < t.len() ==> is_space(#[trigger] t[j]));
            lemma_trim_all_space(t);
            assert(s@.subrange(a as int, b as int) =~= Seq::<char>::empty());
        } else {
            assert(!is_space(t[0]));
            assert(!is_space(t[b - a - 1]));
            assert(forall|j: int| b - a <= j < t.len() ==> is_space(#[trigger] t[j]));
            lemma_trim_back(t, b - a);
            assert(t.take(b - a) =~= s@.subrange(a as int, b as int));
        }
    }
    r
}

proof fn lemma_trim_all_space(s: Seq<char>)
    requires
        forall|j: int| 0 <= j < s.len() ==> is_space(#[trigger] s[j]),
    ensures
        spec_trim(s) == Seq::<char>::empty(),
    decreases s.len(),
{
    if s.len() == 0 {
        assert(s =~= Seq::<char>::empty());
    } else {
        lemma_trim_all_space(s.drop_first());
    }
}

proof fn lemma_trim_front(s: Seq<char>, a: int)
    requires
        0 <= a <= s.len(),
        forall|j: int| 0 <= j < a ==> is_space(#[trigger] s[j]),
    ensures
        spec_trim(s) == spec_trim(s.skip(a)),
    decreases a,
{
    if a == 0 {
        assert(s.skip(0) =~= s);
    } else {
        assert(is_space(s[0]));
        assert(s.drop_first() =~= s.skip(1));
        lemma_trim_front(s.skip(1), a - 1);
        assert(s.skip(1).skip(a - 1) =~= s.skip(a));
    }
}

proof fn lemma_trim_back(s: Seq<char>, b: int)
    requires
        0 < b <= s.len(),
        !is_space(s[0]),
        !is_space(s[b - 1]),
        forall|j: int| b <= j < s.len() ==> is_space(#[trigger] s[j]),
    ensures
        spec_trim(s) == s.take(b),
    decreases s.len(),
{
    if b == s.len() {
        assert(!is_space(s.last()));
        assert(s.take(b) =~= s);
    } else {
        assert(is_space(s.last()));
        lemma_trim_back(s.drop_last(), b);
        assert(s.drop_last().take(b) =~= s.take(b));
    }
}

/// Character-for-character string equality.
pub fn str_eq(a: &str, b: &str) -> (r: bool)
    ensures
        r == (a@ == b@),
{
    let alen = a.unicode_len();
    let blen = b.unicode_len();
    if alen != blen {
        return false;
    }
    let mut i: usize = 0;
    while i < alen
        invariant
            alen == a@.len(),
            blen == b@.len(),
            alen == blen,
            i <= alen,
            forall|k: int| 0 <= k < i ==> a@[k] == b@[k],
        decreases alen - i,
    {
        if a.get_char(i) != b.get_char(i) {
            return false;
        }
        i = i + 1;
    }
    assert(a@ =~= b@);
    return true;
}

/// Compare two strings in lexicographic character order.
pub fn str_lex_lt(a: &str, b: &str) -> (r: bool)
    ensures
        r == lex_lt(a@, b@),
{
    let alen = a.unicode_len();
    let blen = b.unicode_len();
    let mut i: usize = 0;
    assert(a@.skip(0) =~= a@);
    assert(b@.skip(0) =~= b@);
    loop
        invariant
            alen == a@.len(),
            blen == b@.len(),
            i <= alen,
            i <= blen,
            forall|k: int| 0 <= k < i ==> a@[k] == b@[k],
            lex_lt(a@, b@) == lex_lt(a@.skip(i as int), b@.skip(i as int)),
        decreases alen - i,
    {
        if i == alen {
            assert(a@.skip(i as int).len() == 0);
            return blen > alen;
        }
        if i == blen {
            assert(b@.skip(i as int).len() == 0);
            return false;
        }
        let ca = a.get_char(i);
        let cb = b.get_char(i);
        let ghost ii = i as int;
        if (ca as u32) < (cb as u32) {
            assert(a@.skip(ii)[0] == ca && b@.skip(ii)[0] == cb);
            return true;
        }
        if (ca as u32) > (cb as u32) {
            assert(a@.skip(ii)[0] == ca && b@.skip(ii)[0] == cb);
            assert(ca != cb);
            return false;
        }
        assert(ca == cb) by {
            assert(ca as u32 == cb as u32);
            vstd::utf8::char_u32_cast(ca, ca as u32);
            vstd::utf8::char_u32_cast(cb, cb as u32);
        }
        i = i + 1;
        proof {
            assert(a@.skip(ii)[0] == ca && b@.skip(ii)[0] == cb);
            assert(a@.skip(ii).drop_first() =~= a@.skip(ii + 1));
            assert(b@.skip(ii).drop_first() =~= b@.skip(ii + 1));
        }
    }
}

} // verus!

