use vstd::prelude::*;

verus! {

pub open spec fn is_hex_lower(b: u8) -> bool {
    (0x30 <= b <= 0x39) || (0x61 <= b <= 0x66)
}

/// ASCII byte of the hex digit for a value below 16, lowercase.
pub open spec fn hex_digit(v: u8) -> u8 {
    if v < 10 {
        (v + 0x30) as u8
    } else {
        (v + 0x57) as u8
    }
}

/// Value of a lowercase hex digit byte.
pub open spec fn hex_val(b: u8) -> u8 {
    if 0x30 <= b <= 0x39 {
        (b - 0x30) as u8
    } else {
        (b - 0x57) as u8
    }
}

/// Lowercase hex text of a byte sequence, two digits for each byte.
pub open spec fn bytes_to_hex(s: Seq<u8>) -> Seq<u8>
    decreases s.len(),
{
    if s.len() == 0 {
        Seq::empty()
    } else {
        seq![hex_digit(s[0] / 16), hex_digit(s[0] % 16)] + bytes_to_hex(s.drop_first())
    }
}

/// Bytes read back from lowercase hex text of even length.
pub open spec fn hex_to_bytes(s: Seq<u8>) -> Seq<u8>
    decreases s.len(),
{
    if s.len() < 2 {
        Seq::empty()
    } else {
        seq![(hex_val(s[0]) * 16 + hex_val(s[1])) as u8] + hex_to_bytes(s.skip(2))
    }
}

/// Exactly forty lowercase hex digit bytes: the text form of a content hash.
pub open spec fn is_hex40(s: Seq<u8>) -> bool {
    s.len() == 40 && forall|i: int| 0 <= i < 40 ==> is_hex_lower(#[trigger] s[i])
}

pub proof fn lemma_bytes_to_hex_props(s: Seq<u8>)
    ensures
        bytes_to_hex(s).len() == 2 * s.len(),
        forall|i: int|
            0 <= i < bytes_to_hex(s).len() ==> is_hex_lower(#[trigger] bytes_to_hex(s)[i]),
    decreases s.len(),
{
    if s.len() > 0 {
        lemma_bytes_to_hex_props(s.drop_first());
    }
}

pub proof fn lemma_bytes_to_hex_concat(a: Seq<u8>, b: Seq<u8>)
    ensures
        bytes_to_hex(a + b) == bytes_to_hex(a) + bytes_to_hex(b),
    decreases a.len(),
{
    if a.len() == 0 {
        assert(a + b =~= b);
        assert(bytes_to_hex(a) + bytes_to_hex(b) =~= bytes_to_hex(b));
    } else {
        lemma_bytes_to_hex_concat(a.drop_first(), b);
        assert((a + b).drop_first() =~= a.drop_first() + b);
        assert(bytes_to_hex(a + b) =~= bytes_to_hex(a) + bytes_to_hex(b));
    }
}

pub proof fn lemma_hex_to_bytes_concat(a: Seq<u8>, b: Seq<u8>)
    requires
        a.len() % 2 == 0,
    ensures
        hex_to_bytes(a + b) == hex_to_bytes(a) + hex_to_bytes(b),
    decreases a.len(),
{
    if a.len() == 0 {
        assert(a + b =~= b);
        assert(hex_to_bytes(a) + hex_to_bytes(b) =~= hex_to_bytes(b));
    } else {
        lemma_hex_to_bytes_concat(a.skip(2), b);
        assert((a + b).skip(2) =~= a.skip(2) + b);
        assert(hex_to_bytes(a + b) =~= hex_to_bytes(a) + hex_to_bytes(b));
    }
}

pub proof fn lemma_hex_to_bytes_len(s: Seq<u8>)
    requires
        s.len() % 2 == 0,
    ensures
        hex_to_bytes(s).len() == s.len() / 2,
    decreases s.len(),
{
    if s.len() >= 2 {
        lemma_hex_to_bytes_len(s.skip(2));
    }
}

/// Rendering the bytes read from lowercase hex text gives the text back.
pub proof fn lemma_bytes_of_hex_round_trip(h: Seq<u8>)
    requires
        h.len() % 2 == 0,
        forall|i: int| 0 <= i < h.len() ==> is_hex_lower(#[trigger] h[i]),
    ensures
        bytes_to_hex(hex_to_bytes(h)) == h,
    decreases h.len(),
{
    if h.len() == 0 {
        assert(bytes_to_hex(hex_to_bytes(h)) =~= h);
    } else {
        lemma_bytes_of_hex_round_trip(h.skip(2));
        let a = hex_val(h[0]);
        let b = hex_val(h[1]);
        let v = (a * 16 + b) as u8;
        assert(a < 16 && b < 16);
        assert(v / 16 == a && v % 16 == b) by (nonlinear_arith)
            requires
                a < 16,
                b < 16,
                v == a * 16 + b,
        ;
        assert(hex_digit(v / 16) == h[0]);
        assert(hex_digit(v % 16) == h[1]);
        assert(hex_to_bytes(h).drop_first() =~= hex_to_bytes(h.skip(2)));
        assert(bytes_to_hex(hex_to_bytes(h)) =~= h);
    }
}

pub proof fn lemma_bytes_to_hex_snoc(s: Seq<u8>, x: u8)
    ensures
        bytes_to_hex(s.push(x)) == bytes_to_hex(s) + seq![hex_digit(x / 16), hex_digit(x % 16)],
{
    assert(s.push(x) =~= s + seq![x]);
    lemma_bytes_to_hex_concat(s, seq![x]);
    assert(seq![x].drop_first() =~= Seq::<u8>::empty());
    assert(bytes_to_hex(Seq::<u8>::empty()) =~= Seq::<u8>::empty());
    assert(bytes_to_hex(seq![x]) =~= seq![hex_digit(x / 16), hex_digit(x % 16)]);
}

/// Lowercase hex text of a byte slice, executable form.
pub fn to_hex(s: &[u8]) -> (r: Vec<u8>)
    ensures
        r@ == bytes_to_hex(s@),
{
    let mut r: Vec<u8> = Vec::new();
    let mut i: usize = 0;
    while i < s.len()
        invariant
            i <= s@.len(),
            r@ == bytes_to_hex(s@.take(i as int)),
        decreases s@.len() - i,
    {
        let b = s[i];
        let hi: u8 = b / 16;
        let lo: u8 = b % 16;
        r.push(if hi < 10 { hi + 0x30 } else { hi + 0x57 });
        r.push(if lo < 10 { lo + 0x30 } else { lo + 0x57 });
        proof {
            lemma_bytes_to_hex_snoc(s@.take(i as int), b);
            assert(s@.take(i as int + 1) =~= s@.take(i as int).push(b));
        }
        i = i + 1;
    }
    proof {
        assert(s@.take(s@.len() as int) =~= s@);
    }
    r
}

/// Bytes read from even-length lowercase hex text, executable form.
pub fn from_hex(s: &[u8]) -> (r: Vec<u8>)
    requires
        s@.len() % 2 == 0,
        forall|i: int| 0 <= i < s@.len() ==> is_hex_lower(#[trigger] s@[i]),
    ensures
        r@ == hex_to_bytes(s@),
{
    let mut r: Vec<u8> = Vec::new();
    let mut i: usize = 0;
    while i + 1 < s.len()
        invariant
            i <= s@.len(),
            i % 2 == 0,
            s@.len() % 2 == 0,
            forall|j: int| 0 <= j < s@.len() ==> is_hex_lower(#[trigger] s@[j]),
            r@ == hex_to_bytes(s@.take(i as int)),
        decreases s@.len() - i,
    {
        let a = s[i];
        let b = s[i + 1];
        let va: u8 = if a <= 0x39 { a - 0x30 } else { a - 0x57 };
        let vb: u8 = if b <= 0x39 { b - 0x30 } else { b - 0x57 };
        assert(va == hex_val(a) && va < 16);
        assert(vb == hex_val(b) && vb < 16);
        r.push(va * 16 + vb);
        proof {
            let t = s@.take(i as int);
            let t2 = s@.take(i as int + 2);
            assert(t2 =~= t + seq![a, b]);
            lemma_hex_to_bytes_concat(t, seq![a, b]);
            assert(seq![a, b].skip(2) =~= Seq::<u8>::empty());
            assert(hex_to_bytes(Seq::<u8>::empty()) =~= Seq::<u8>::empty());
            assert(hex_to_bytes(seq![a, b]) =~= seq![(hex_val(a) * 16 + hex_val(b)) as u8]);
            assert(r@ == hex_to_bytes(t2));
        }
        i = i + 2;
    }
    proof {
        assert(i == s@.len());
        assert(s@.take(s@.len() as int) =~= s@);
    }
    r
}

/// True exactly when `s` is forty lowercase hex digit bytes.
pub fn check_hex40(s: &[u8]) -> (r: bool)
    ensures
        r == is_hex40(s@),
{
    if s.len() != 40 {
        return false;
    }
    let mut i: usize = 0;
    while i < s.len()
        invariant
            s@.len() == 40,
            i <= 40,
            forall|j: int| 0 <= j < i ==> is_hex_lower(#[trigger] s@[j]),
        decreases s@.len() - i,
    {
        let b = s[i];
        if !((0x30 <= b && b <= 0x39) || (0x61 <= b && b <= 0x66)) {
            return false;
        }
        i = i + 1;
    }
    true
}

} // verus!
