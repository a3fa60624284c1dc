//! Text rendering shared by the rest of the library: lowercase
//! hexadecimal, decimal numbers and UTF-8 decoding.

use vstd::prelude::*;
use vstd::utf8::*;

verus! {

/// The lowercase hexadecimal digit for a value below sixteen.
pub open spec fn hex_digit(n: int) -> char {
    if n < 10 {
        (n + 48) as char
    } else {
        (n + 87) as char
    }
}

/// The decimal digit for a value below ten.
pub open spec fn decimal_digit(n: int) -> char {
    (n + 48) as char
}

/// Two lowercase hexadecimal digits per byte, most significant first.
pub open spec fn hex_text(bytes: Seq<u8>) -> Seq<char>
    decreases bytes.len(),
{
    if bytes.len() == 0 {
        Seq::empty()
    } else {
        hex_text(bytes.drop_last()) + seq![
            hex_digit((bytes.last() / 16) as int),
            hex_digit((bytes.last() % 16) as int),
        ]
    }
}

/// A 16-bit value as exactly four lowercase hexadecimal digits.
pub open spec fn hex4_text(v: u16) -> Seq<char> {
    seq![
        hex_digit((v / 4096) as int),
        hex_digit(((v / 256) % 16) as int),
        hex_digit(((v / 16) % 16) as int),
        hex_digit((v % 16) as int),
    ]
}

/// The decimal representation of a natural number, without leading zeros.
pub open spec fn decimal_text(n: nat) -> Seq<char>
    decreases n,
{
    if n < 10 {
        seq![decimal_digit(n as int)]
    } else {
        decimal_text(n / 10).push(decimal_digit((n % 10) as int))
    }
}

/// `"true"` or `"false"`.
pub open spec fn bool_text(b: bool) -> Seq<char> {
    if b {
        "true"@
    } else {
        "false"@
    }
}

/// Appends one character to a string (`String::push`).
#[verifier::external_body]
pub(crate) fn push_char(s: &mut String, c: char)
    ensures
        final(s)@ == old(s)@.push(c),
{
    s.push(c);
}

/// Turns bytes into a string when they are well-formed UTF-8
/// (`String::from_utf8`): the result is present exactly for well-formed
/// input and then holds the decoded characters.
#[verifier::external_body]
pub(crate) fn utf8_string(bytes: Vec<u8>) -> (r: Option<String>)
    ensures
        r is Some <==> valid_utf8(bytes@),
        r matches Some(s) ==> s@ == decode_utf8(bytes@),
{
    String::from_utf8(bytes).ok()
}

/// The lowercase hexadecimal digit for `n`.
pub fn hex_digit_char(n: u8) -> (c: char)
    requires
        n < 16,
    ensures
        c == hex_digit(n as int),
{
    if n < 10 {
        (n + 48) as char
    } else {
        (n + 87) as char
    }
}

/// Appends the two lowercase hexadecimal digits of `b`.
fn push_hex_byte(s: &mut String, b: u8)
    ensures
        final(s)@ == old(s)@ + seq![hex_digit((b / 16) as int), hex_digit((b % 16) as int)],
{
    push_char(s, hex_digit_char(b / 16));
    push_char(s, hex_digit_char(b % 16));
}

/// Lowercase hexadecimal rendering of a byte slice, two digits per byte.
pub fn hex_encode(bytes: &[u8]) -> (r: String)
    ensures
        r@ == hex_text(bytes@),
        r@.len() == 2 * bytes@.len(),
{
    let mut encoded = String::new();
    let mut i: usize = 0;
    while i < bytes.len()
        invariant
            i <= bytes@.len(),
            encoded@ == hex_text(bytes@.take(i as int)),
            encoded@.len() == 2 * i,
        decreases bytes@.len() - i,
    {
        push_hex_byte(&mut encoded, bytes[i]);
        assert(bytes@.take(i + 1).drop_last() =~= bytes@.take(i as int));
        i = i + 1;
    }
    assert(bytes@.take(bytes@.len() as int) =~= bytes@);
    encoded
}

/// Appends `v` as four lowercase hexadecimal digits.
pub fn push_hex4(s: &mut String, v: u16)
    ensures
        final(s)@ == old(s)@ + hex4_text(v),
{
    push_char(s, hex_digit_char((v / 4096) as u8));
    push_char(s, hex_digit_char(((v / 256) % 16) as u8));
    push_char(s, hex_digit_char(((v / 16) % 16) as u8));
    push_char(s, hex_digit_char((v % 16) as u8));
    assert(final(s)@ =~= old(s)@ + hex4_text(v));
}

/// Appends the decimal representation of `n`.
pub fn push_decimal(s: &mut String, n: u64)
    ensures
        final(s)@ == old(s)@ + decimal_text(n as nat),
    decreases n,
{
    if n >= 10 {
        push_decimal(s, n / 10);
    }
    push_char(s, ((n % 10) as u8 + 48) as char);
    assert(final(s)@ =~= old(s)@ + decimal_text(n as nat));
}

/// Appends `"true"` or `"false"`.
pub fn push_bool(s: &mut String, b: bool)
    ensures
        final(s)@ == old(s)@ + bool_text(b),
{
    if b {
        s.append("true");
    } else {
        s.append("false");
    }
}

/// ASCII upper-case letters lowered; every other character unchanged.
pub open spec fn ascii_lower(c: char) -> char {
    if 'A' <= c && c <= 'Z' {
        (c as int + 32) as char
    } else {
        c
    }
}

/// A text with its ASCII letters lowered (as `str::to_ascii_lowercase`).
pub open spec fn lower_text(s: Seq<char>) -> Seq<char> {
    s.map_values(|c: char| ascii_lower(c))
}

/// `needle` occurs in `hay` as a contiguous run.
pub open spec fn contains_text(hay: Seq<char>, needle: Seq<char>) -> bool {
    exists|i: int| 0 <= i && i + needle.len() <= hay.len() && #[trigger] hay.subrange(i, i + needle.len()) == needle
}

/// The characters of `s` with ASCII letters lowered.
pub fn ascii_lowercase(s: &str) -> (r: Vec<char>)
    ensures
        r@ == lower_text(s@),
{
    let mut out: Vec<char> = Vec::new();
    for c in it: s.chars()
        invariant
            it.seq() == s@,
            out@ == lower_text(s@.take(it.index())),
    {
        let l = if 'A' <= c && c <= 'Z' {
            ((c as u32) + 32) as u8 as char
        } else {
            c
        };
        assert(l == ascii_lower(c));
        out.push(l);
        assert(lower_text(s@.take(it.index() + 1)) =~= lower_text(s@.take(it.index())).push(
            ascii_lower(c),
        ));
    }
    assert(s@.take(s@.len() as int) =~= s@);
    out
}

/// Whether `needle` occurs in `hay`.
pub fn contains_chars(hay: &Vec<char>, needle: &str) -> (r: bool)
    ensures
        r == contains_text(hay@, needle@),
{
    let n = needle.unicode_len();
    let h = hay.len();
    if n > h {
        assert(!contains_text(hay@, needle@));
        return false;
    }
    if n == 0 {
        assert(hay@.subrange(0, 0 + needle@.len() as int) =~= needle@);
        return true;
    }
    let mut i: usize = 0;
    while i <= h - n
        invariant
            n == needle@.len(),
            h == hay@.len(),
            n <= h,
            i <= h - n + 1,
            forall|k: int| 0 <= k < i ==> #[trigger] hay@.subrange(k, k + n) != needle@,
        decreases h - n + 1 - i,
    {
        let mut j: usize = 0;
        let mut same = true;
        assert(hay@.subrange(i as int, i as int) =~= needle@.take(0));
        while j < n
            invariant
                n == needle@.len(),
                h == hay@.len(),
                i + n <= h,
                j <= n,
                same == (hay@.subrange(i as int, i + j) == needle@.take(j as int)),
            decreases n - j,
        {
            let ghost was = same;
            let c = needle.get_char(j);
            if same && hay[i + j] != c {
                same = false;
            }
            proof {
                let a = hay@.subrange(i as int, i + j);
                let b = needle@.take(j as int);
                let a1 = hay@.subrange(i as int, i + j + 1);
                let b1 = needle@.take(j + 1);
                assert(a1 =~= a.push(hay@[i + j]));
                assert(b1 =~= b.push(needle@[j as int]));
                if was && hay@[i + j] == c {
                    assert(a1 =~= b1);
                } else {
                    if a1 == b1 {
                        assert(a1[j as int] == b1[j as int]);
                        assert(a =~= a1.drop_last());
                        assert(b =~= b1.drop_last());
                    }
                }
            }
            j = j + 1;
        }
        assert(needle@.take(n as int) =~= needle@);
        if same {
            return true;
        }
        i = i + 1;
    }
    assert(!contains_text(hay@, needle@)) by {
        if contains_text(hay@, needle@) {
            let k = choose|k: int| 0 <= k && k + needle@.len() <= hay@.len() && #[trigger] hay@.subrange(k, k + needle@.len()) == needle@;
            assert(hay@.subrange(k, k + n) != needle@);
        }
    }
    false
}

/// Lexicographic order on texts, character by character (the order of
/// `String`): a text sorts before any longer text it begins.
pub open spec fn chars_less(a: Seq<char>, b: Seq<char>) -> bool
    decreases a.len(),
{
    if a.len() == 0 {
        b.len() > 0
    } else if b.len() == 0 {
        false
    } else if a[0] != b[0] {
        a[0] < b[0]
    } else {
        chars_less(a.drop_first(), b.drop_first())
    }
}

/// No text sorts before itself.
pub proof fn lemma_chars_less_irreflexive(a: Seq<char>)
    ensures
        !chars_less(a, a),
    decreases a.len(),
{
    if a.len() > 0 {
        lemma_chars_less_irreflexive(a.drop_first());
    }
}

/// The order on texts is transitive.
pub proof fn lemma_chars_less_transitive(a: Seq<char>, b: Seq<char>, c: Seq<char>)
    requires
        chars_less(a, b),
        chars_less(b, c),
    ensures
        chars_less(a, c),
    decreases a.len(),
{
    if a.len() > 0 && b.len() > 0 && c.len() > 0 {
        if a[0] == b[0] && b[0] == c[0] {
            lemma_chars_less_transitive(a.drop_first(), b.drop_first(), c.drop_first());
        }
    }
}

/// Texts in strictly increasing order.
pub open spec fn texts_in_order(ks: Seq<Seq<char>>) -> bool {
    forall|a: int, b: int| 0 <= a < b < ks.len() ==> chars_less(#[trigger] ks[a], #[trigger] ks[b])
}

/// Texts in strictly increasing order never repeat.
pub proof fn lemma_in_order_no_duplicates(ks: Seq<Seq<char>>)
    requires
        texts_in_order(ks),
    ensures
        ks.no_duplicates(),
{
    assert forall|a: int, b: int| 0 <= a < ks.len() && 0 <= b < ks.len() && a != b implies ks[a] != ks[b] by {
        if a < b {
            assert(chars_less(ks[a], ks[b]));
        } else {
            assert(chars_less(ks[b], ks[a]));
        }
        lemma_chars_less_irreflexive(ks[a]);
    }
}

/// Appending a text that sorts after the last keeps texts in order.
pub proof fn lemma_push_in_order(ks: Seq<Seq<char>>, k: Seq<char>)
    requires
        texts_in_order(ks),
        ks.len() > 0 ==> chars_less(ks.last(), k),
    ensures
        texts_in_order(ks.push(k)),
{
    let n = ks.push(k);
    assert forall|a: int, b: int| 0 <= a < b < n.len() implies chars_less(#[trigger] n[a], #[trigger] n[b]) by {
        if b < ks.len() {
            assert(n[a] == ks[a] && n[b] == ks[b]);
        } else {
            assert(n[b] == k);
            assert(n[a] == ks[a]);
            if a < ks.len() - 1 {
                assert(chars_less(ks[a], ks[ks.len() - 1]));
                lemma_chars_less_transitive(ks[a], ks.last(), k);
            }
        }
    }
}

/// ASCII lower-case letters raised; every other character unchanged.
pub open spec fn ascii_upper(c: char) -> char {
    if 'a' <= c && c <= 'z' {
        (c as int - 32) as char
    } else {
        c
    }
}

/// A text with its ASCII letters raised (as `str::to_ascii_uppercase`).
pub open spec fn upper_text(s: Seq<char>) -> Seq<char> {
    s.map_values(|c: char| ascii_upper(c))
}

/// The number a string of decimal digits denotes.
pub open spec fn decimal_value(s: Seq<char>) -> int
    decreases s.len(),
{
    if s.len() == 0 {
        0
    } else {
        decimal_value(s.drop_last()) * 10 + (s.last() as int - 48)
    }
}

/// The decimal rendering of a number consists of digits, has no leading
/// zero (unless the number is zero), and reads back as that number.
pub proof fn lemma_decimal_reads_back(n: nat)
    ensures
        decimal_value(decimal_text(n)) == n,
        decimal_text(n).len() > 0,
        forall|i: int| 0 <= i < decimal_text(n).len() ==> '0' <= #[trigger] decimal_text(n)[i] <= '9',
        n > 0 ==> decimal_text(n)[0] != '0',
    decreases n,
{
    if n >= 10 {
        lemma_decimal_reads_back(n / 10);
        let t = decimal_text(n);
        let p = decimal_text(n / 10);
        assert(t.drop_last() =~= p);
        assert(t[0] == p[0]);
        assert forall|i: int| 0 <= i < t.len() implies '0' <= #[trigger] t[i] <= '9' by {
            if i < p.len() {
                assert(t[i] == p[i]);
            }
        }
        assert(t.last() == decimal_digit((n % 10) as int));
        assert(t.last() as int - 48 == (n % 10) as int);
        assert(decimal_value(t) == decimal_value(p) * 10 + (n % 10) as int);
        assert((n / 10) * 10 + n % 10 == n);
        assert(decimal_value(t) == n);
    } else {
        let t = decimal_text(n);
        assert(t.drop_last() =~= Seq::<char>::empty());
        assert(decimal_value(t.drop_last()) == 0);
        assert(t.last() as int - 48 == n as int);
        assert(decimal_value(t) == n);
    }
}

/// A text can only be found, in either letter case, where its lowered
/// form occurs in the lowered text searched.
pub proof fn lemma_lowered_contains(hay: Seq<char>, needle: Seq<char>, i: int)
    requires
        0 <= i,
        i + needle.len() <= hay.len(),
        hay.subrange(i, i + needle.len()) == needle,
    ensures
        contains_text(lower_text(hay), lower_text(needle)),
{
    let lh = lower_text(hay);
    let ln = lower_text(needle);
    assert(lh.subrange(i, i + ln.len()) =~= ln);
}

} // verus!
