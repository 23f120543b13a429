//! Plain-text helpers shared by the pipeline: conversions between `&str`
//! and `Vec<char>`, prefix tests, whitespace classification, whitespace
//! collapsing and trimming.

use vstd::prelude::*;

verus! {

/// Turns a string slice into the vector of its characters, in order.
pub fn str_to_chars(s: &str) -> (r: Vec<char>)
    ensures
        r@ == s@,
{
    let n = s.unicode_len();
    let mut r: Vec<char> = Vec::new();
    let mut i: usize = 0;
    while i < n
        invariant
            i <= n,
            n == s@.len(),
            r@ == s@.subrange(0, i as int),
        decreases n - i,
    {
        r.push(s.get_char(i));
        i = i + 1;
    }
    proof {
        assert(r@ =~= s@);
    }
    r
}

/// Relies on `String::push`: appends exactly the given character.
#[verifier::external_body]
fn push_char(s: &mut String, c: char)
    ensures
        final(s)@ == old(s)@.push(c),
{
    s.push(c);
}

/// Builds the string whose characters are exactly those of `v`, in order.
pub fn chars_to_string(v: &Vec<char>) -> (r: String)
    ensures
        r@ == v@,
{
    let mut r = String::new();
    let mut i: usize = 0;
    while i < v.len()
        invariant
            i <= v@.len(),
            r@ == v@.subrange(0, i as int),
        decreases v@.len() - i,
    {
        push_char(&mut r, v[i]);
        i = i + 1;
    }
    proof {
        assert(r@ =~= v@);
    }
    r
}

/// Copies the characters of `s` between `from` and `to`.
pub fn subvec(s: &Vec<char>, from: usize, to: usize) -> (r: Vec<char>)
    requires
        from <= to <= s@.len(),
    ensures
        r@ == s@.subrange(from as int, to as int),
{
    let mut r: Vec<char> = Vec::new();
    let mut i: usize = from;
    while i < to
        invariant
            from <= i <= to <= s@.len(),
            r@ == s@.subrange(from as int, i as int),
        decreases to - i,
    {
        r.push(s[i]);
        i = i + 1;
    }
    proof {
        assert(r@ =~= s@.subrange(from as int, to as int));
    }
    r
}

/// `p` stands at the front of `s`.
pub open spec fn has_prefix(s: Seq<char>, p: Seq<char>) -> bool {
    p.len() <= s.len() && s.subrange(0, p.len() as int) == p
}

/// Decides `has_prefix` on character vectors.
pub fn chars_have_prefix(s: &Vec<char>, p: &Vec<char>) -> (r: bool)
    ensures
        r == has_prefix(s@, p@),
{
    if p.len() > s.len() {
        proof {
            assert(!has_prefix(s@, p@));
        }
        return false;
    }
    let mut i: usize = 0;
    while i < p.len()
        invariant
            i <= p@.len(),
            p@.len() <= s@.len(),
            forall|k: int| 0 <= k < i ==> s@[k] == p@[k],
        decreases p@.len() - i,
    {
        if s[i] != p[i] {
            proof {
                assert(s@.subrange(0, p@.len() as int)[i as int] != p@[i as int]);
            }
            return false;
        }
        i = i + 1;
    }
    proof {
        assert(s@.subrange(0, p@.len() as int) =~= p@);
    }
    true
}

/// `p` stands at the back of `s`.
pub open spec fn has_suffix(s: Seq<char>, p: Seq<char>) -> bool {
    p.len() <= s.len() && s.subrange(s.len() - p.len(), s.len() as int) == p
}

/// `c` carries the Unicode `White_Space` property.
pub open spec fn is_space(c: char) -> bool {
    ||| (9 <= c as u32 && c as u32 <= 13)
    ||| c as u32 == 32
    ||| c as u32 == 0x85
    ||| c as u32 == 0xA0
    ||| c as u32 == 0x1680
    ||| (0x2000 <= c as u32 && c as u32 <= 0x200A)
    ||| c as u32 == 0x2028
    ||| c as u32 == 0x2029
    ||| c as u32 == 0x202F
    ||| c as u32 == 0x205F
    ||| c as u32 == 0x3000
}

/// Decides [`is_space`].
pub fn space_char(c: char) -> (r: bool)
    ensures
        r == is_space(c),
{
    let u = c as u32;
    (9 <= u && u <= 13) || u == 32 || u == 0x85 || u == 0xA0 || u == 0x1680 || (0x2000 <= u && u
        <= 0x200A) || u == 0x2028 || u == 0x2029 || u == 0x202F || u == 0x205F || u == 0x3000
}

/// `s` with every run of whitespace collapsed to a single `_`.
pub open spec fn collapse_ws(s: Seq<char>) -> Seq<char>
    decreases s.len(),
{
    if s.len() == 0 {
        Seq::empty()
    } else if is_space(s[0]) && s.len() >= 2 && is_space(s[1]) {
        collapse_ws(s.drop_first())
    } else if is_space(s[0]) {
        seq!['_'] + collapse_ws(s.drop_first())
    } else {
        seq![s[0]] + collapse_ws(s.drop_first())
    }
}

/// Computes [`collapse_ws`].
pub fn collapse_ws_chars(s: &Vec<char>) -> (r: Vec<char>)
    ensures
        r@ == collapse_ws(s@),
{
    let n = s.len();
    let mut out: Vec<char> = Vec::new();
    let mut i: usize = 0;
    proof {
        assert(s@.subrange(0, n as int) =~= s@);
        assert(out@ + collapse_ws(s@) =~= collapse_ws(s@));
    }
    while i < n
        invariant
            i <= n == s@.len(),
            out@ + collapse_ws(s@.subrange(i as int, n as int)) == collapse_ws(s@),
        decreases n - i,
    {
        let ghost rest = s@.subrange(i as int, n as int);
        proof {
            assert(rest.drop_first() =~= s@.subrange(i as int + 1, n as int));
            assert(rest[0] == s@[i as int]);
        }
        let c = s[i];
        if space_char(c) && i + 1 < n && space_char(s[i + 1]) {
            // the middle of a whitespace run: nothing is emitted
            proof {
                assert(rest.len() >= 2 && rest[1] == s@[i as int + 1]);
            }
        } else if space_char(c) {
            proof {
                assert(out@.push('_') + collapse_ws(rest.drop_first()) =~= out@ + (seq!['_']
                    + collapse_ws(rest.drop_first())));
            }
            out.push('_');
        } else {
            proof {
                assert(out@.push(c) + collapse_ws(rest.drop_first()) =~= out@ + (seq![s@[i as int]]
                    + collapse_ws(rest.drop_first())));
            }
            out.push(c);
        }
        i = i + 1;
    }
    proof {
        assert(s@.subrange(i as int, n as int) =~= Seq::<char>::empty());
        assert(out@ + collapse_ws(Seq::<char>::empty()) =~= out@);
    }
    out
}

/// The first position at or after `p` holding something other than
/// whitespace, or the length.
pub open spec fn skip_ws(s: Seq<char>, p: int) -> int
    recommends
        0 <= p,
    decreases s.len() - p when 0 <= p
{
    if p >= s.len() {
        s.len() as int
    } else if is_space(s[p]) {
        skip_ws(s, p + 1)
    } else {
        p
    }
}

/// One past the last non-whitespace character before `q`, or zero.
pub open spec fn trim_end(s: Seq<char>, q: int) -> int
    recommends
        q <= s.len(),
    decreases q when 0 <= q
{
    if q <= 0 {
        0
    } else if is_space(s[q - 1]) {
        trim_end(s, q - 1)
    } else {
        q
    }
}

/// `s` without its leading and trailing whitespace.
pub open spec fn trim_ws(s: Seq<char>) -> Seq<char> {
    let a = skip_ws(s, 0);
    let b = trim_end(s, s.len() as int);
    if a < b {
        s.subrange(a, b)
    } else {
        Seq::empty()
    }
}

/// Computes [`trim_ws`].
pub fn trim_ws_chars(s: &Vec<char>) -> (r: Vec<char>)
    ensures
        r@ == trim_ws(s@),
{
    let n = s.len();
    let mut a: usize = 0;
    while a < n && space_char(s[a])
        invariant
            a <= n == s@.len(),
            skip_ws(s@, 0) == skip_ws(s@, a as int),
        decreases n - a,
    {
        a = a + 1;
    }
    let mut b: usize = n;
    while b > 0 && space_char(s[b - 1])
        invariant
            b <= n == s@.len(),
            trim_end(s@, n as int) == trim_end(s@, b as int),
        decreases b,
    {
        b = b - 1;
    }
    if a < b {
        subvec(s, a, b)
    } else {
        let r: Vec<char> = Vec::new();
        proof {
            assert(r@ =~= trim_ws(s@));
        }
        r
    }
}

} // verus!
