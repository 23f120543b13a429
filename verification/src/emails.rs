//! Decoder for obfuscated e-mail anchors.
//!
//! The hosting CDN rewrites `mailto:` addresses into anchors of the shape
//! `<a ... data-cfemail="HEX" ...>[email&nbsp;protected]</a>`. The plain
//! address is recovered by hex-decoding the payload and XOR-ing every byte
//! after the first with the first byte, read as UTF-8. [`fix_emails`]
//! rewrites a string by replacing every such anchor, left to right and
//! non-overlapping, with its decoded address; anchors whose payload is
//! missing or unusable are kept as they stand.

use vstd::prelude::*;
use vstd::utf8::{decode_utf8, valid_utf8};
use crate::text::{chars_to_string, str_to_chars, subvec};

verus! {

/// The opening of an obfuscated anchor.
pub open spec fn open_seq() -> Seq<char> {
    "<a "@
}

/// The fixed text from the closing `>` of the opening tag to the end of
/// the anchor (26 characters, preceded in a match by the `>` itself).
pub open spec fn tail_seq() -> Seq<char> {
    "[email&nbsp;protected]</a>"@
}

/// The attribute key that carries the payload, quote included
/// (14 characters).
pub open spec fn key_seq() -> Seq<char> {
    "data-cfemail=\""@
}

/// `c` is an ASCII hexadecimal digit.
pub open spec fn is_hex_digit(c: char) -> bool {
    (48 <= c as u32 && c as u32 <= 57) || (97 <= c as u32 && c as u32 <= 102) || (65 <= c as u32
        && c as u32 <= 70)
}

/// The value of a hexadecimal digit.
pub open spec fn hex_val(c: char) -> u8 {
    if 48 <= c as u32 && c as u32 <= 57 {
        (c as u32 - 48) as u8
    } else if 97 <= c as u32 && c as u32 <= 102 {
        (c as u32 - 87) as u8
    } else if 65 <= c as u32 && c as u32 <= 70 {
        (c as u32 - 55) as u8
    } else {
        0
    }
}

/// The bytes written by an even-length hexadecimal string.
pub open spec fn hex_bytes(s: Seq<char>) -> Seq<u8> {
    Seq::new((s.len() / 2) as nat, |i: int| (hex_val(s[2 * i]) * 16 + hex_val(s[2 * i + 1])) as u8)
}

/// The plaintext bytes of a payload: every byte after the first,
/// XOR-ed with the first.
pub open spec fn xor_decode(b: Seq<u8>) -> Seq<u8>
    recommends
        b.len() >= 1,
{
    Seq::new((b.len() - 1) as nat, |i: int| b[i + 1] ^ b[0])
}

/// The first position at or after `p` holding `>`, or the length when
/// none does.
pub open spec fn first_gt(s: Seq<char>, p: int) -> int
    recommends
        0 <= p,
    decreases s.len() - p when 0 <= p
{
    if p >= s.len() {
        s.len() as int
    } else if s[p] == '>' {
        p
    } else {
        first_gt(s, p + 1)
    }
}

/// The end of the run of hexadecimal digits that starts at `p`: the first
/// position at or after `p` holding something else, or the length.
pub open spec fn hex_run_end(s: Seq<char>, p: int) -> int
    recommends
        0 <= p,
    decreases s.len() - p when 0 <= p
{
    if p >= s.len() {
        s.len() as int
    } else if !is_hex_digit(s[p]) {
        p
    } else {
        hex_run_end(s, p + 1)
    }
}

/// At `p` the attribute key stands, followed by one or more hexadecimal
/// digits and a closing quote.
pub open spec fn payload_at(attrs: Seq<char>, p: int) -> bool {
    &&& 0 <= p
    &&& p + 14 <= attrs.len()
    &&& attrs.subrange(p, p + 14) == key_seq()
    &&& ({
        let e = hex_run_end(attrs, p + 14);
        e > p + 14 && e < attrs.len() && attrs[e] == '"'
    })
}

/// The first position at or after `p` where a whole payload stands,
/// or `-1` when none does.
pub open spec fn find_payload(attrs: Seq<char>, p: int) -> int
    recommends
        0 <= p,
    decreases attrs.len() - p when 0 <= p
{
    if p > attrs.len() {
        -1
    } else if payload_at(attrs, p) {
        p
    } else if p == attrs.len() {
        -1
    } else {
        find_payload(attrs, p + 1)
    }
}

/// The hexadecimal payload of an attribute region, when one stands in it.
pub open spec fn payload_of(attrs: Seq<char>) -> Option<Seq<char>> {
    let q = find_payload(attrs, 0);
    if q == -1 {
        Option::None
    } else {
        Option::Some(attrs.subrange(q + 14, hex_run_end(attrs, q + 14)))
    }
}

/// An obfuscated anchor starts at `i`: `<a `, then a non-empty run free
/// of `>`, then `>` and the fixed tail.
pub open spec fn match_at(s: Seq<char>, i: int) -> bool {
    &&& 0 <= i
    &&& i + 3 <= s.len()
    &&& s.subrange(i, i + 3) == open_seq()
    &&& ({
        let j = first_gt(s, i + 3);
        j > i + 3 && j + 27 <= s.len() && s.subrange(j + 1, j + 27) == tail_seq()
    })
}

/// One past the last character of the anchor that starts at `i`.
pub open spec fn match_end(s: Seq<char>, i: int) -> int
    recommends
        match_at(s, i),
{
    first_gt(s, i + 3) + 27
}

/// The decoded address of the anchor at `i`, or `None` when its payload
/// is missing, of odd or too short a length, or not valid UTF-8 once
/// XOR-ed.
pub open spec fn decoded_at(s: Seq<char>, i: int) -> Option<Seq<char>>
    recommends
        match_at(s, i),
{
    let j = first_gt(s, i + 3);
    let attrs = s.subrange(i + 3, j);
    match payload_of(attrs) {
        Option::None => Option::None,
        Option::Some(hx) => if hx.len() >= 2 && hx.len() % 2 == 0 {
            let d = xor_decode(hex_bytes(hx));
            if valid_utf8(d) {
                Option::Some(decode_utf8(d))
            } else {
                Option::None
            }
        } else {
            Option::None
        },
    }
}

/// What the anchor at `i` becomes: its decoded address, or itself when
/// it cannot be decoded.
pub open spec fn replacement(s: Seq<char>, i: int) -> Seq<char>
    recommends
        match_at(s, i),
{
    match decoded_at(s, i) {
        Option::Some(d) => d,
        Option::None => s.subrange(i, match_end(s, i)),
    }
}

/// The rewritten remainder of `s` from position `i` on: anchors are
/// consumed whole and replaced, every other character is kept.
pub open spec fn fix_from(s: Seq<char>, i: int) -> Seq<char>
    recommends
        0 <= i,
    decreases s.len() - i when 0 <= i
{
    if i >= s.len() {
        Seq::empty()
    } else if match_at(s, i) {
        replacement(s, i) + fix_from(s, match_end(s, i))
    } else {
        seq![s[i]] + fix_from(s, i + 1)
    }
}

/// The whole string rewritten: what [`fix_emails`] returns.
pub open spec fn fix_emails_spec(s: Seq<char>) -> Seq<char> {
    fix_from(s, 0)
}

/// Decides [`is_hex_digit`].
fn hex_digit(c: char) -> (r: bool)
    ensures
        r == is_hex_digit(c),
{
    let u = c as u32;
    (48 <= u && u <= 57) || (97 <= u && u <= 102) || (65 <= u && u <= 70)
}

/// Computes [`hex_val`], bounded by 15 on hexadecimal digits.
fn hex_digit_val(c: char) -> (r: u8)
    requires
        is_hex_digit(c),
    ensures
        r == hex_val(c),
        r <= 15,
{
    let u = c as u32;
    if 48 <= u && u <= 57 {
        (u - 48) as u8
    } else if 97 <= u && u <= 102 {
        (u - 87) as u8
    } else {
        (u - 55) as u8
    }
}

/// Computes [`hex_bytes`] over a vector of hexadecimal digits.
fn hex_bytes_exec(s: &Vec<char>) -> (r: Vec<u8>)
    requires
        s@.len() % 2 == 0,
        forall|k: int| 0 <= k < s@.len() ==> is_hex_digit(s@[k]),
    ensures
        r@ == hex_bytes(s@),
{
    let mut r: Vec<u8> = Vec::new();
    let mut i: usize = 0;
    while i + 1 < s.len()
        invariant
            i % 2 == 0,
            i <= s@.len(),
            s@.len() % 2 == 0,
            forall|k: int| 0 <= k < s@.len() ==> is_hex_digit(s@[k]),
            r@.len() == i / 2,
            forall|k: int| 0 <= k < r@.len() ==> r@[k] == hex_bytes(s@)[k],
        decreases s@.len() - i,
    {
        let hi = hex_digit_val(s[i]);
        let lo = hex_digit_val(s[i + 1]);
        r.push(hi * 16 + lo);
        i = i + 2;
    }
    proof {
        assert(r@ =~= hex_bytes(s@));
    }
    r
}

/// Computes [`xor_decode`].
fn xor_decode_exec(b: &Vec<u8>) -> (r: Vec<u8>)
    requires
        b@.len() >= 1,
    ensures
        r@ == xor_decode(b@),
{
    let key = b[0];
    let mut r: Vec<u8> = Vec::new();
    let mut i: usize = 1;
    while i < b.len()
        invariant
            1 <= i <= b@.len(),
            key == b@[0],
            r@.len() == i - 1,
            forall|k: int| 0 <= k < r@.len() ==> r@[k] == xor_decode(b@)[k],
        decreases b@.len() - i,
    {
        r.push(b[i] ^ key);
        i = i + 1;
    }
    proof {
        assert(r@ =~= xor_decode(b@));
    }
    r
}

/// Relies on `String::from_utf8`: it succeeds exactly on valid UTF-8 and
/// returns the string whose characters decode those bytes.
#[verifier::external_body]
fn bytes_to_string(v: Vec<u8>) -> (r: Option<String>)
    ensures
        r is Some <==> valid_utf8(v@),
        r matches Some(st) ==> st@ == decode_utf8(v@),
{
    match String::from_utf8(v) {
        Ok(st) => Some(st),
        Err(_) => None,
    }
}

/// Computes [`first_gt`].
fn first_gt_exec(s: &Vec<char>, p: usize) -> (r: usize)
    requires
        p <= s@.len(),
    ensures
        r == first_gt(s@, p as int),
        p <= r <= s@.len(),
{
    let mut q: usize = p;
    while q < s.len() && s[q] != '>'
        invariant
            p <= q <= s@.len(),
            first_gt(s@, p as int) == first_gt(s@, q as int),
        decreases s@.len() - q,
    {
        q = q + 1;
    }
    q
}

/// Computes [`hex_run_end`].
fn hex_run_end_exec(s: &Vec<char>, p: usize) -> (r: usize)
    requires
        p <= s@.len(),
    ensures
        r == hex_run_end(s@, p as int),
        p <= r <= s@.len(),
        forall|k: int| p <= k < r ==> is_hex_digit(s@[k]),
    decreases s@.len() - p,
{
    let mut q: usize = p;
    while q < s.len() && hex_digit(s[q])
        invariant
            p <= q <= s@.len(),
            hex_run_end(s@, p as int) == hex_run_end(s@, q as int),
            forall|k: int| p <= k < q ==> is_hex_digit(s@[k]),
        decreases s@.len() - q,
    {
        q = q + 1;
    }
    q
}

/// Decides whether `pat` stands in `s` at position `p`.
fn sub_at(s: &Vec<char>, p: usize, pat: &Vec<char>) -> (r: bool)
    requires
        p <= s@.len(),
    ensures
        r == (p + pat@.len() <= s@.len() && s@.subrange(
            p as int,
            p + pat@.len(),
        ) == pat@),
{
    let n = s.len();
    if n - p < pat.len() {
        return false;
    }
    let mut i: usize = 0;
    while i < pat.len()
        invariant
            i <= pat@.len(),
            n == s@.len(),
            p + pat@.len() <= n,
            forall|k: int| 0 <= k < i ==> s@[p + k] == pat@[k],
        decreases pat@.len() - i,
    {
        proof {
            assert(p + i < n);
        }
        if s[p + i] != pat[i] {
            proof {
                assert(s@.subrange(p as int, p + pat@.len())[i as int] != pat@[i as int]);
            }
            return false;
        }
        i = i + 1;
    }
    proof {
        assert(s@.subrange(p as int, p + pat@.len()) =~= pat@);
    }
    true
}

/// Computes [`find_payload`] from the front of an attribute region.
fn find_payload_exec(attrs: &Vec<char>, key: &Vec<char>) -> (r: Option<usize>)
    requires
        key@ == key_seq(),
        key@.len() == 14,
    ensures
        match r {
            Option::Some(q) => find_payload(attrs@, 0) == q && payload_at(attrs@, q as int),
            Option::None => find_payload(attrs@, 0) == -1,
        },
{
    let n = attrs.len();
    let mut p: usize = 0;
    loop
        invariant
            p <= n == attrs@.len(),
            key@ == key_seq(),
            key@.len() == 14,
            find_payload(attrs@, 0) == find_payload(attrs@, p as int),
        decreases attrs@.len() - p,
    {
        if sub_at(attrs, p, key) {
            proof {
                assert(p + 14 <= n);
            }
            let e = hex_run_end_exec(attrs, p + 14);
            if e > p + 14 && e < attrs.len() {
                if attrs[e] == '"' {
                    proof {
                        assert(payload_at(attrs@, p as int));
                    }
                    return Some(p);
                }
            }
        }
        proof {
            assert(!payload_at(attrs@, p as int));
        }
        if p == attrs.len() {
            proof {
                assert(find_payload(attrs@, p as int) == -1);
            }
            return None;
        }
        p = p + 1;
    }
}

/// Recognizes the anchor at `i` and yields its end and its replacement.
fn try_match(s: &Vec<char>, i: usize) -> (r: Option<(usize, Vec<char>)>)
    requires
        i < s@.len(),
    ensures
        r is Some <==> match_at(s@, i as int),
        r matches Some((end, rep)) ==> end == match_end(s@, i as int) && rep@ == replacement(
            s@,
            i as int,
        ) && i < end <= s@.len(),
{
    let open = str_to_chars("<a ");
    proof {
        reveal_strlit("<a ");
        assert(open@ == open_seq());
    }
    if !sub_at(s, i, &open) {
        proof {
            assert(!match_at(s@, i as int));
        }
        return None;
    }
    let n = s.len();
    let j = first_gt_exec(s, i + 3);
    if j == i + 3 || n - j < 27 {
        proof {
            assert(!match_at(s@, i as int));
        }
        return None;
    }
    let tail = str_to_chars("[email&nbsp;protected]</a>");
    proof {
        reveal_strlit("[email&nbsp;protected]</a>");
        assert(tail@ == tail_seq());
        assert(tail@.len() == 26);
    }
    if !sub_at(s, j + 1, &tail) {
        proof {
            assert(!match_at(s@, i as int));
        }
        return None;
    }
    proof {
        assert(match_at(s@, i as int));
    }
    let end = j + 27;
    let attrs = subvec(s, i + 3, j);
    let key = str_to_chars("data-cfemail=\"");
    proof {
        reveal_strlit("data-cfemail=\"");
        assert(key@ == key_seq());
        assert(key@.len() == 14);
    }
    match find_payload_exec(&attrs, &key) {
        Option::None => {
            proof {
                assert(replacement(s@, i as int) == s@.subrange(i as int, end as int));
            }
            Some((end, subvec(s, i, end)))
        },
        Option::Some(q) => {
            let e = hex_run_end_exec(&attrs, q + 14);
            let hx = subvec(&attrs, q + 14, e);
            proof {
                assert(payload_of(attrs@) == Option::Some(hx@));
            }
            if hx.len() >= 2 && hx.len() % 2 == 0 {
                proof {
                    assert(forall|k: int|
                        0 <= k < hx@.len() ==> hx@[k] == attrs@[q + 14 + k] && is_hex_digit(
                            attrs@[q + 14 + k],
                        ));
                }
                let bytes = hex_bytes_exec(&hx);
                let dec = xor_decode_exec(&bytes);
                match bytes_to_string(dec) {
                    Option::Some(st) => {
                        let rep = str_to_chars(st.as_str());
                        proof {
                            assert(replacement(s@, i as int) == rep@);
                        }
                        Some((end, rep))
                    },
                    Option::None => {
                        proof {
                            assert(replacement(s@, i as int) == s@.subrange(i as int, end as int));
                        }
                        Some((end, subvec(s, i, end)))
                    },
                }
            } else {
                proof {
                    assert(replacement(s@, i as int) == s@.subrange(i as int, end as int));
                }
                Some((end, subvec(s, i, end)))
            }
        },
    }
}

/// Rewrites a character vector as [`fix_emails_spec`] says.
pub fn fix_email_chars(s: &Vec<char>) -> (r: Vec<char>)
    ensures
        r@ == fix_emails_spec(s@),
{
    let mut out: Vec<char> = Vec::new();
    let mut i: usize = 0;
    proof {
        assert(out@ + fix_from(s@, 0) =~= fix_from(s@, 0));
    }
    while i < s.len()
        invariant
            i <= s@.len(),
            out@ + fix_from(s@, i as int) == fix_emails_spec(s@),
        decreases s@.len() - i,
    {
        match try_match(s, i) {
            Option::Some((end, mut rep)) => {
                proof {
                    assert(fix_from(s@, i as int) == rep@ + fix_from(s@, end as int));
                    assert((out@ + rep@) + fix_from(s@, end as int) =~= out@ + (rep@ + fix_from(
                        s@,
                        end as int,
                    )));
                }
                out.append(&mut rep);
                i = end;
            },
            Option::None => {
                proof {
                    assert(fix_from(s@, i as int) == seq![s@[i as int]] + fix_from(s@, i + 1));
                    assert(out@.push(s@[i as int]) + fix_from(s@, i + 1) =~= out@ + (seq![
                        s@[i as int],
                    ] + fix_from(s@, i + 1)));
                }
                out.push(s[i]);
                i = i + 1;
            },
        }
    }
    proof {
        assert(out@ + fix_from(s@, i as int) =~= out@);
    }
    out
}

/// On a string whose every anchor is one that cannot be decoded, the
/// rewriting changes nothing from any position on.
proof fn lemma_fix_identity(t: Seq<char>, i: int)
    requires
        0 <= i <= t.len(),
        forall|p: int| #[trigger] match_at(t, p) ==> decoded_at(t, p) is None,
    ensures
        fix_from(t, i) == t.subrange(i, t.len() as int),
    decreases t.len() - i,
{
    if i >= t.len() {
        assert(t.subrange(i, t.len() as int) =~= Seq::<char>::empty());
    } else if match_at(t, i) {
        let end = match_end(t, i);
        lemma_fix_identity(t, end);
        assert(t.subrange(i, end) + t.subrange(end, t.len() as int) =~= t.subrange(
            i,
            t.len() as int,
        ));
    } else {
        lemma_fix_identity(t, i + 1);
        assert(seq![t[i]] + t.subrange(i + 1, t.len() as int) =~= t.subrange(i, t.len() as int));
    }
}

/// Idempotence of the decoder: once every anchor still standing in the
/// rewritten string is one that cannot be decoded, rewriting it again
/// gives the same string. (An anchor whose payload decodes could only
/// come out of a decoded address that itself spells one; such an input
/// is rewritten again.)
pub proof fn lemma_fix_emails_idempotent(s: Seq<char>)
    requires
        forall|p: int|
            #[trigger] match_at(fix_emails_spec(s), p) ==> decoded_at(fix_emails_spec(s), p)
                is None,
    ensures
        fix_emails_spec(fix_emails_spec(s)) == fix_emails_spec(s),
{
    let t = fix_emails_spec(s);
    lemma_fix_identity(t, 0);
    assert(t.subrange(0, t.len() as int) =~= t);
}

/// The lower-case hexadecimal character of a value under sixteen.
pub open spec fn hex_char(d: int) -> char
    recommends
        0 <= d < 16,
{
    if d == 0 {
        '0'
    } else if d == 1 {
        '1'
    } else if d == 2 {
        '2'
    } else if d == 3 {
        '3'
    } else if d == 4 {
        '4'
    } else if d == 5 {
        '5'
    } else if d == 6 {
        '6'
    } else if d == 7 {
        '7'
    } else if d == 8 {
        '8'
    } else if d == 9 {
        '9'
    } else if d == 10 {
        'a'
    } else if d == 11 {
        'b'
    } else if d == 12 {
        'c'
    } else if d == 13 {
        'd'
    } else if d == 14 {
        'e'
    } else {
        'f'
    }
}

/// The hexadecimal writing of a byte sequence, two digits per byte.
pub open spec fn hex_of(b: Seq<u8>) -> Seq<char> {
    Seq::new(
        2 * b.len(),
        |i: int|
            if i % 2 == 0 {
                hex_char(b[i / 2] as int / 16)
            } else {
                hex_char(b[i / 2] as int % 16)
            },
    )
}

proof fn lemma_hex_char_val(d: int)
    requires
        0 <= d < 16,
    ensures
        is_hex_digit(hex_char(d)),
        hex_val(hex_char(d)) == d,
{
}

/// Reading the hexadecimal writing back gives the bytes.
proof fn lemma_hex_roundtrip(b: Seq<u8>)
    ensures
        hex_bytes(hex_of(b)) == b,
        forall|k: int| 0 <= k < hex_of(b).len() ==> is_hex_digit(#[trigger] hex_of(b)[k]),
{
    let hx = hex_of(b);
    assert(forall|k: int| 0 <= k < hx.len() ==> is_hex_digit(#[trigger] hx[k])) by {
        assert forall|k: int| 0 <= k < hx.len() implies is_hex_digit(#[trigger] hx[k]) by {
            if k % 2 == 0 {
                lemma_hex_char_val(b[k / 2] as int / 16);
            } else {
                lemma_hex_char_val(b[k / 2] as int % 16);
            }
        }
    }
    assert(hex_bytes(hx) =~= b) by {
        assert forall|k: int| 0 <= k < b.len() implies hex_bytes(hx)[k] == b[k] by {
            lemma_hex_char_val(b[k] as int / 16);
            lemma_hex_char_val(b[k] as int % 16);
            assert(hx[2 * k] == hex_char(b[k] as int / 16));
            assert(hx[2 * k + 1] == hex_char(b[k] as int % 16));
            assert((b[k] as int / 16) * 16 + b[k] as int % 16 == b[k] as int);
        }
    }
}

proof fn lemma_first_gt_at(s: Seq<char>, p: int, q: int)
    requires
        0 <= p <= q < s.len(),
        s[q] == '>',
        forall|k: int| p <= k < q ==> s[k] != '>',
    ensures
        first_gt(s, p) == q,
    decreases q - p,
{
    if p < q {
        lemma_first_gt_at(s, p + 1, q);
    }
}

proof fn lemma_hex_run_at(s: Seq<char>, p: int, q: int)
    requires
        0 <= p <= q < s.len(),
        !is_hex_digit(s[q]),
        forall|k: int| p <= k < q ==> is_hex_digit(s[k]),
    ensures
        hex_run_end(s, p) == q,
    decreases q - p,
{
    if p < q {
        lemma_hex_run_at(s, p + 1, q);
    }
}

/// An obfuscated anchor wrapping the hexadecimal writing of `b`.
pub open spec fn obfuscated_anchor(b: Seq<u8>) -> Seq<char> {
    open_seq() + key_seq() + hex_of(b) + "\">"@ + tail_seq()
}

/// Decoder correctness: an anchor wrapping the writing of at least two
/// bytes decodes to the UTF-8 reading of every byte after the first,
/// XOR-ed with the first.
pub proof fn lemma_decoder_correct(b: Seq<u8>)
    requires
        b.len() >= 2,
        valid_utf8(xor_decode(b)),
    ensures
        fix_emails_spec(obfuscated_anchor(b)) == decode_utf8(xor_decode(b)),
{
    reveal_strlit("<a ");
    reveal_strlit("data-cfemail=\"");
    reveal_strlit("\">");
    reveal_strlit("[email&nbsp;protected]</a>");
    lemma_hex_roundtrip(b);
    let h = 2 * b.len() as int;
    let hx = hex_of(b);
    let s = obfuscated_anchor(b);
    assert(s.len() == 45 + h);
    assert(s.subrange(0, 3) =~= open_seq());
    assert(s.subrange(3, 17) =~= key_seq());
    assert(s.subrange(17, 17 + h) =~= hx);
    assert(s[17 + h] == '"');
    assert(s[18 + h] == '>');
    assert(s.subrange(19 + h, 45 + h) =~= tail_seq());
    assert(forall|k: int| 3 <= k < 18 + h ==> s[k] != '>') by {
        assert forall|k: int| 3 <= k < 18 + h implies s[k] != '>' by {
            if k < 17 {
                assert(s[k] == key_seq()[k - 3]);
            } else if k < 17 + h {
                assert(s[k] == hx[k - 17]);
                assert(is_hex_digit(s[k]));
            } else {
                assert(s[k] == '"');
            }
        }
    }
    lemma_first_gt_at(s, 3, 18 + h);
    let j = first_gt(s, 3);
    assert(j == 18 + h);
    assert(match_at(s, 0));
    let attrs = s.subrange(3, j);
    assert(attrs.len() == 15 + h);
    assert(attrs.subrange(0, 14) =~= key_seq());
    assert(forall|k: int| 14 <= k < 14 + h ==> is_hex_digit(#[trigger] attrs[k])) by {
        assert forall|k: int| 14 <= k < 14 + h implies is_hex_digit(#[trigger] attrs[k]) by {
            assert(attrs[k] == hx[k - 14]);
        }
    }
    assert(attrs[14 + h] == '"');
    assert(!is_hex_digit('"'));
    lemma_hex_run_at(attrs, 14, 14 + h);
    assert(payload_at(attrs, 0));
    assert(find_payload(attrs, 0) == 0);
    assert(attrs.subrange(14, 14 + h) =~= hx);
    assert(payload_of(attrs) == Option::Some(hx));
    assert(decoded_at(s, 0) == Option::Some(decode_utf8(xor_decode(b))));
    assert(match_end(s, 0) == s.len());
    assert(fix_from(s, s.len() as int) == Seq::<char>::empty());
    assert(fix_from(s, 0) == replacement(s, 0) + fix_from(s, match_end(s, 0)));
    assert(decode_utf8(xor_decode(b)) + Seq::<char>::empty() =~= decode_utf8(xor_decode(b)));
}

/// Rewrites every obfuscated e-mail anchor in `input` into its decoded
/// address, leaving anchors that cannot be decoded as they stand.
pub fn fix_emails(input: String) -> (r: String)
    ensures
        r@ == fix_emails_spec(input@),
{
    let chars = str_to_chars(input.as_str());
    let out = fix_email_chars(&chars);
    chars_to_string(&out)
}

} // verus!
