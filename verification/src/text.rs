//! Byte-level text utilities shared by the wire codec, the injector's
//! process-name classification and the colour parser.
use vstd::prelude::*;

verus! {

use vstd::string::StringSliceAdditionalSpecFns;

/// Bytes of an ASCII string literal, as a sequence.
pub open spec fn lit_bytes(s: &str) -> Seq<u8> {
    Seq::new(s@.len(), |i: int| s@[i] as u8)
}

/// A byte that may sit inside a quoted wire string: printable, not a quote,
/// not a backslash, and in particular never a newline, so line framing and
/// string framing can both scan without escapes.
pub open spec fn wire_safe_byte(b: u8) -> bool {
    b >= 0x20 && b != ('"' as u8) && b != ('\\' as u8)
}

/// Every byte of the sequence may sit inside a quoted wire string.
pub open spec fn wire_safe(s: Seq<u8>) -> bool {
    forall|i: int| 0 <= i < s.len() ==> wire_safe_byte(#[trigger] s[i])
}

/// ASCII decimal digit.
pub open spec fn is_digit(b: u8) -> bool {
    ('0' as u8) <= b <= ('9' as u8)
}

/// The literal `lit` occurs in `s` starting at position `i`.
pub open spec fn match_at(s: Seq<u8>, i: int, lit: Seq<u8>) -> bool {
    0 <= i && i + lit.len() <= s.len() && s.subrange(i, i + lit.len()) == lit
}

/// Appends the bytes of an ASCII literal to `out`.
pub fn append_lit(out: &mut Vec<u8>, s: &str)
    requires
        s.is_ascii(),
    ensures
        final(out)@ == old(out)@ + lit_bytes(s),
{
    broadcast use vstd::string::is_ascii_spec_bytes;

    let mut b = s.as_bytes_vec();
    out.append(&mut b);
}

/// True when the bytes of `s` at position `pos` are exactly the ASCII literal `lit`.
pub fn eat_lit(s: &Vec<u8>, pos: usize, lit: &str) -> (r: bool)
    requires
        lit.is_ascii(),
        lit@.len() <= usize::MAX,
    ensures
        r == match_at(s@, pos as int, lit_bytes(lit)),
{
    broadcast use vstd::string::is_ascii_spec_bytes;

    let n = lit.len();
    proof {
        assert(lit.spec_bytes().len() == lit@.len());
    }
    if n > s.len() || pos > s.len() - n {
        assert(!match_at(s@, pos as int, lit_bytes(lit)));
        return false;
    }
    let mut i: usize = 0;
    proof {
        assert(s@.len() == s.len());
    }
    while i < n
        invariant
            lit.is_ascii(),
            n == lit@.len(),
            pos + n <= s@.len(),
            s@.len() <= usize::MAX,
            0 <= i <= n,
            forall|j: int| 0 <= j < i ==> s@[pos + j] == lit_bytes(lit)[j],
        decreases n - i,
    {
        if s[pos + i] != lit.get_ascii(i) {
            assert(!match_at(s@, pos as int, lit_bytes(lit))) by {
                assert(s@[pos + i] != lit_bytes(lit)[i as int]);
                if match_at(s@, pos as int, lit_bytes(lit)) {
                    assert(s@.subrange(pos as int, pos + n)[i as int] == s@[pos + i]);
                }
            }
            return false;
        }
        i += 1;
    }
    assert(s@.subrange(pos as int, pos + n) =~= lit_bytes(lit));
    true
}


/// Whole-string equality against an ASCII literal.
pub fn bytes_eq_lit(v: &Vec<u8>, lit: &str) -> (r: bool)
    requires
        lit.is_ascii(),
        lit@.len() <= usize::MAX,
    ensures
        r == (v@ == lit_bytes(lit)),
{
    broadcast use vstd::string::is_ascii_spec_bytes;

    proof {
        assert(lit.spec_bytes().len() == lit@.len());
        assert(v@.len() == v.len());
    }
    if v.len() != lit.len() {
        return false;
    }
    let r = eat_lit(v, 0, lit);
    proof {
        assert(v@.subrange(0, v@.len() as int) =~= v@);
    }
    r
}



/// The wire-safe bytes of a string, in order.
pub open spec fn keep_wire_safe(s: Seq<u8>) -> Seq<u8>
    decreases s.len(),
{
    if s.len() == 0 {
        Seq::empty()
    } else {
        keep_wire_safe(s.drop_last()) + if wire_safe_byte(s.last()) {
            seq![s.last()]
        } else {
            Seq::empty()
        }
    }
}

/// What remains is wire-safe.
pub proof fn lemma_keep_wire_safe(s: Seq<u8>)
    ensures
        wire_safe(keep_wire_safe(s)),
    decreases s.len(),
{
    if s.len() > 0 {
        lemma_keep_wire_safe(s.drop_last());
    }
}

/// Keeps only the wire-safe bytes of a string, so that it can sit inside
/// one quoted wire field without escaping.
pub fn sanitize_wire(v: &Vec<u8>) -> (r: Vec<u8>)
    ensures
        r@ == keep_wire_safe(v@),
        wire_safe(r@),
{
    let mut r: Vec<u8> = Vec::new();
    let mut i: usize = 0;
    while i < v.len()
        invariant
            0 <= i <= v@.len(),
            r@ == keep_wire_safe(v@.take(i as int)),
        decreases v@.len() - i,
    {
        let b = v[i];
        proof {
            assert(v@.take(i + 1).drop_last() =~= v@.take(i as int));
            assert(v@.take(i + 1).last() == v@[i as int]);
        }
        if b >= 0x20 && b != ('"' as u8) && b != ('\\' as u8) {
            r.push(b);
        }
        proof {
            assert(r@ =~= keep_wire_safe(v@.take(i + 1)));
        }
        i += 1;
    }
    proof {
        assert(v@.take(v@.len() as int) =~= v@);
        lemma_keep_wire_safe(v@);
    }
    r
}

/// Whole-string equality of two byte strings.
pub fn bytes_eq(a: &Vec<u8>, b: &Vec<u8>) -> (r: bool)
    ensures
        r == (a@ == b@),
{
    if a.len() != b.len() {
        return false;
    }
    let mut i: usize = 0;
    while i < a.len()
        invariant
            0 <= i <= a@.len(),
            a@.len() == b@.len(),
            forall|j: int| 0 <= j < i ==> a@[j] == b@[j],
        decreases a@.len() - i,
    {
        if a[i] != b[i] {
            return false;
        }
        i += 1;
    }
    proof {
        assert(a@ =~= b@);
    }
    true
}

/// Lower-cases one ASCII byte; other bytes are unchanged.
pub open spec fn to_lower_byte(b: u8) -> u8 {
    if ('A' as u8) <= b <= ('Z' as u8) {
        (b + 0x20) as u8
    } else {
        b
    }
}

/// Lower-cases the ASCII letters of a byte string.
pub open spec fn to_lower(s: Seq<u8>) -> Seq<u8> {
    s.map_values(|b: u8| to_lower_byte(b))
}

/// ASCII lower-casing of a byte string, as the classifier uses it.
pub fn lower_ascii(s: &Vec<u8>) -> (r: Vec<u8>)
    ensures
        r@ == to_lower(s@),
{
    let mut r: Vec<u8> = Vec::new();
    let mut i: usize = 0;
    while i < s.len()
        invariant
            0 <= i <= s@.len(),
            r@ == to_lower(s@.take(i as int)),
        decreases s@.len() - i,
    {
        let b = s[i];
        if b >= ('A' as u8) && b <= ('Z' as u8) {
            r.push(b + 0x20);
        } else {
            r.push(b);
        }
        proof {
            assert(r@ =~= to_lower(s@.take(i + 1)));
        }
        i += 1;
    }
    proof {
        assert(s@.take(s@.len() as int) =~= s@);
    }
    r
}

/// The needle occurs somewhere in the haystack.
pub open spec fn contains_seq(hay: Seq<u8>, needle: Seq<u8>) -> bool {
    exists|i: int| #[trigger] match_at(hay, i, needle)
}

/// Substring search over bytes, used to match process-name patterns.
pub fn contains_bytes(hay: &Vec<u8>, needle: &str) -> (r: bool)
    requires
        needle.is_ascii(),
        needle@.len() <= usize::MAX,
    ensures
        r == contains_seq(hay@, lit_bytes(needle)),
{
    broadcast use vstd::string::is_ascii_spec_bytes;

    let n = needle.len();
    proof {
        assert(needle.spec_bytes().len() == needle@.len());
    }
    if n > hay.len() {
        return false;
    }
    if n == 0 {
        assert(match_at(hay@, 0, lit_bytes(needle))) by {
            assert(hay@.subrange(0, 0) =~= lit_bytes(needle));
        }
        return true;
    }
    let mut i: usize = 0;
    proof {
        assert(hay@.len() == hay.len());
    }
    while i <= hay.len() - n
        invariant
            needle.is_ascii(),
            n == needle@.len(),
            1 <= n <= hay@.len(),
            hay@.len() <= usize::MAX,
            0 <= i,
            i <= hay@.len() - n + 1,
            forall|j: int| 0 <= j < i ==> !match_at(hay@, j, lit_bytes(needle)),
        decreases hay@.len() + 1 - n - i,
    {
        if eat_lit(hay, i, needle) {
            return true;
        }
        i += 1;
    }
    false
}

} // verus!
