//! Content hash keying each deal record.
//!
//! Rotation-canonical: a deal and its table rotations are the same physical
//! board, so the hash is taken over the least (in string order) of the PBN
//! texts of the four rotations. Rotated duplicates therefore share a hash.

use vstd::prelude::*;
use sha2::Digest;
use crate::cards::{deal_view, lemma_pbn_deal_injective, lemma_rotate_compose, pbn_deal, rotated, Card, Deal, Direction};
use crate::text::{chars_of, lemma_lex_transitive, lemma_lex_trichotomy, lex_lt, push_char, string_less};

verus! {

/// The SHA-256 digest of a byte sequence.
pub uninterp spec fn sha256_digest(data: Seq<u8>) -> Seq<u8>;

/// SHA-256 of `data` with `sha2::Sha256::digest`. The result is named by
/// `sha256_digest`; it is 32 bytes long, as the digest's output type
/// (`GenericArray<u8, U32>`) fixes.
#[verifier::external_body]
fn sha256(data: &Vec<u8>) -> (r: Vec<u8>)
    ensures
        r@ == sha256_digest(data@),
        r@.len() == 32,
{
    sha2::Sha256::digest(data.as_slice()).to_vec()
}

/// The lesser of two texts in string order; the first on a tie.
pub open spec fn lex_min(a: Seq<char>, b: Seq<char>) -> Seq<char> {
    if lex_lt(b, a) { b } else { a }
}

/// The least of four texts, folded left to right.
pub open spec fn lex_min4(a: Seq<char>, b: Seq<char>, c: Seq<char>, d: Seq<char>) -> Seq<char> {
    lex_min(lex_min(lex_min(a, b), c), d)
}

/// The PBN text of a deal, from North.
#[verifier::opaque]
pub open spec fn north_text(v: Seq<Seq<Card>>) -> Seq<char> {
    pbn_deal(v, 0)
}

/// The PBN text (from North) of the deal rotated `k` seats.
pub open spec fn rotation_text(v: Seq<Seq<Card>>, k: int) -> Seq<char> {
    north_text(rotated(v, k))
}

/// The canonical text of a deal: the least of its four rotations' texts.
pub open spec fn canonical_text(v: Seq<Seq<Card>>) -> Seq<char> {
    lex_min4(rotation_text(v, 0), rotation_text(v, 1), rotation_text(v, 2), rotation_text(v, 3))
}

/// The bytes of an ASCII text.
pub open spec fn ascii_bytes(s: Seq<char>) -> Seq<u8> {
    s.map_values(|c: char| (c as u32) as u8)
}

/// Lower-case hex digit for 0..=15.
pub open spec fn hex_digit(n: int) -> char {
    if n == 0 { '0' } else if n == 1 { '1' } else if n == 2 { '2' } else if n == 3 { '3' }
    else if n == 4 { '4' } else if n == 5 { '5' } else if n == 6 { '6' } else if n == 7 { '7' }
    else if n == 8 { '8' } else if n == 9 { '9' } else if n == 10 { 'a' } else if n == 11 { 'b' }
    else if n == 12 { 'c' } else if n == 13 { 'd' } else if n == 14 { 'e' } else { 'f' }
}

/// Lower-case hex text of a byte sequence, two digits per byte.
pub open spec fn hex_lower(b: Seq<u8>) -> Seq<char>
    decreases b.len(),
{
    if b.len() == 0 {
        Seq::empty()
    } else {
        hex_lower(b.drop_last()) + seq![hex_digit(b.last() as int / 16), hex_digit(b.last() as int % 16)]
    }
}

/// The record key of a deal: hex SHA-256 of its canonical text.
pub open spec fn content_hash_spec(v: Seq<Seq<Card>>) -> Seq<char> {
    hex_lower(sha256_digest(ascii_bytes(canonical_text(v))))
}

proof fn lemma_hex_len(b: Seq<u8>)
    ensures
        hex_lower(b).len() == 2 * b.len(),
    decreases b.len(),
{
    if b.len() > 0 {
        lemma_hex_len(b.drop_last());
    }
}

proof fn lemma_min_comm(a: Seq<char>, b: Seq<char>)
    ensures
        lex_min(a, b) == lex_min(b, a),
{
    lemma_lex_trichotomy(a, b);
}

proof fn lemma_min_assoc(a: Seq<char>, b: Seq<char>, c: Seq<char>)
    ensures
        lex_min(lex_min(a, b), c) == lex_min(a, lex_min(b, c)),
{
    lemma_lex_trichotomy(a, b);
    lemma_lex_trichotomy(b, c);
    lemma_lex_trichotomy(a, c);
    if lex_lt(b, a) && lex_lt(c, b) {
        lemma_lex_transitive(c, b, a);
    }
    if lex_lt(a, b) && lex_lt(b, c) {
        lemma_lex_transitive(a, b, c);
    }
    if lex_lt(c, a) && lex_lt(a, b) {
        lemma_lex_transitive(c, a, b);
    }
    if lex_lt(b, c) && lex_lt(c, a) {
        lemma_lex_transitive(b, c, a);
    }
    if lex_lt(a, c) && lex_lt(c, b) {
        lemma_lex_transitive(a, c, b);
    }
    if lex_lt(b, a) && lex_lt(a, c) {
        lemma_lex_transitive(b, a, c);
    }
}

/// The least of four texts does not depend on where the cycle starts.
proof fn lemma_min4_cycle(a: Seq<char>, b: Seq<char>, c: Seq<char>, d: Seq<char>)
    ensures
        lex_min4(b, c, d, a) == lex_min4(a, b, c, d),
{
    let x = lex_min(b, c);
    lemma_min_comm(lex_min(x, d), a);
    lemma_min_assoc(a, x, d);
    lemma_min_assoc(a, b, c);
}

proof fn lemma_canonical_one_seat(w: Seq<Seq<Card>>)
    requires
        w.len() == 4,
    ensures
        canonical_text(rotated(w, 1)) == canonical_text(w),
{
    let r = rotated(w, 1);
    lemma_rotate_compose(w, 1, 0);
    lemma_rotate_compose(w, 1, 1);
    lemma_rotate_compose(w, 1, 2);
    lemma_rotate_compose(w, 1, 3);
    lemma_rotate_compose(w, 0, 0);
    assert(rotation_text(r, 0) == rotation_text(w, 1));
    assert(rotation_text(r, 1) == rotation_text(w, 2));
    assert(rotation_text(r, 2) == rotation_text(w, 3));
    assert(rotation_text(r, 3) == rotation_text(w, 0));
    lemma_min4_cycle(rotation_text(w, 0), rotation_text(w, 1), rotation_text(w, 2), rotation_text(w, 3));
}

/// Rotating a deal does not change its canonical text, hence not its
/// content hash: a deal and any of its table rotations share one record key.
pub proof fn lemma_content_hash_rotation_invariant(v: Seq<Seq<Card>>, k: int)
    requires
        v.len() == 4,
        0 <= k < 4,
    ensures
        canonical_text(rotated(v, k)) == canonical_text(v),
        content_hash_spec(rotated(v, k)) == content_hash_spec(v),
    decreases k,
{
    if k == 0 {
        assert(rotated(v, 0) =~= v);
    } else {
        lemma_content_hash_rotation_invariant(v, k - 1);
        let w = rotated(v, k - 1);
        lemma_rotate_compose(v, k - 1, 1);
        lemma_canonical_one_seat(w);
    }
}

/// The two deals put the same cards at every seat.
pub open spec fn same_cards_at_seats(x: Seq<Seq<Card>>, y: Seq<Seq<Card>>) -> bool {
    forall|i: int, c: Card| 0 <= i < 4 ==> (#[trigger] x[i].contains(c) <==> y[i].contains(c))
}

/// The canonical text is the text of one of the four rotations.
proof fn lemma_canonical_is_a_rotation(v: Seq<Seq<Card>>)
    ensures
        exists|a: int| 0 <= a < 4 && canonical_text(v) == #[trigger] rotation_text(v, a),
{
    let t0 = rotation_text(v, 0);
    let t1 = rotation_text(v, 1);
    let t2 = rotation_text(v, 2);
    let t3 = rotation_text(v, 3);
    let m = canonical_text(v);
    assert(m == t0 || m == t1 || m == t2 || m == t3);
    if m == t0 {
        assert(m == rotation_text(v, 0));
    } else if m == t1 {
        assert(m == rotation_text(v, 1));
    } else if m == t2 {
        assert(m == rotation_text(v, 2));
    } else {
        assert(m == rotation_text(v, 3));
    }
}

proof fn lemma_same_text_same_cards(x: Seq<Seq<Card>>, y: Seq<Seq<Card>>)
    requires
        x.len() == 4,
        y.len() == 4,
        north_text(x) == north_text(y),
    ensures
        same_cards_at_seats(x, y),
{
    reveal(north_text);
    lemma_pbn_deal_injective(x, y);
}

/// Rotating both deals alike keeps them holding the same cards at every seat.
proof fn lemma_same_cards_rotate(x: Seq<Seq<Card>>, y: Seq<Seq<Card>>, m: int)
    requires
        x.len() == 4,
        y.len() == 4,
        0 <= m < 4,
        same_cards_at_seats(x, y),
    ensures
        same_cards_at_seats(rotated(x, m), rotated(y, m)),
{
    assert forall|i: int, c: Card| 0 <= i < 4 implies (#[trigger] rotated(x, m)[i].contains(c) <==> rotated(y, m)[i].contains(c)) by {
        let j = (i + 4 - m % 4) % 4;
        assert(rotated(x, m)[i] == x[j]);
        assert(rotated(y, m)[i] == y[j]);
        assert(x[j].contains(c) <==> y[j].contains(c));
    }
}

/// Rotation `a` of `v` and rotation `b` of `w` having one text, rotation
/// `a - b` of `v` holds the cards of `w`.
#[verifier::rlimit(60)]
proof fn lemma_rotations_match(v: Seq<Seq<Card>>, w: Seq<Seq<Card>>, a: int, b: int)
    requires
        v.len() == 4,
        w.len() == 4,
        0 <= a < 4,
        0 <= b < 4,
        rotation_text(v, a) == rotation_text(w, b),
    ensures
        same_cards_at_seats(rotated(v, (a + (4 - b) % 4) % 4), w),
{
    let x = rotated(v, a);
    let y = rotated(w, b);
    let m = (4 - b) % 4;
    let k = (a + m) % 4;
    assert(same_cards_at_seats(x, y)) by {
        lemma_same_text_same_cards(x, y);
    }
    assert(same_cards_at_seats(rotated(x, m), rotated(y, m))) by {
        lemma_same_cards_rotate(x, y, m);
    }
    assert(rotated(x, m) == rotated(v, k)) by {
        lemma_rotate_compose(v, a, m);
    }
    assert(rotated(y, m) == w) by {
        lemma_rotate_compose(w, b, m);
        assert((b + m) % 4 == 0);
        assert(rotated(w, 0) =~= w);
    }
}

/// Two deals share a canonical text only when one is a table rotation of the
/// other: some rotation of `v` puts the same cards at every seat as `w`.
/// (The content hash is SHA-256 of that text, so, barring collisions of
/// SHA-256, equal record keys mean rotated duplicates.)
pub proof fn lemma_canonical_text_only_for_rotations(v: Seq<Seq<Card>>, w: Seq<Seq<Card>>)
    requires
        v.len() == 4,
        w.len() == 4,
        canonical_text(v) == canonical_text(w),
    ensures
        exists|k: int| 0 <= k < 4 && #[trigger] same_cards_at_seats(rotated(v, k), w),
{
    lemma_canonical_is_a_rotation(v);
    lemma_canonical_is_a_rotation(w);
    let a = choose|a: int| 0 <= a < 4 && canonical_text(v) == #[trigger] rotation_text(v, a);
    let b = choose|b: int| 0 <= b < 4 && canonical_text(w) == #[trigger] rotation_text(w, b);
    lemma_rotations_match(v, w, a, b);
    let k = (a + (4 - b) % 4) % 4;
    assert(same_cards_at_seats(rotated(v, k), w));
}

fn hex_char(n: u8) -> (c: char)
    requires
        n < 16,
    ensures
        c == hex_digit(n as int),
{
    if n == 0 { '0' } else if n == 1 { '1' } else if n == 2 { '2' } else if n == 3 { '3' }
    else if n == 4 { '4' } else if n == 5 { '5' } else if n == 6 { '6' } else if n == 7 { '7' }
    else if n == 8 { '8' } else if n == 9 { '9' } else if n == 10 { 'a' } else if n == 11 { 'b' }
    else if n == 12 { 'c' } else if n == 13 { 'd' } else if n == 14 { 'e' } else { 'f' }
}

/// Lower-case hex text of bytes.
pub fn to_hex_lower(b: &Vec<u8>) -> (s: String)
    ensures
        s@ == hex_lower(b@),
        s@.len() == 2 * b@.len(),
{
    let mut s = String::new();
    for i in 0..b.len()
        invariant
            s@ == hex_lower(b@.take(i as int)),
    {
        let x = b[i];
        push_char(&mut s, hex_char(x / 16));
        push_char(&mut s, hex_char(x % 16));
        assert(b@.take(i + 1).drop_last() =~= b@.take(i as int));
        assert(s@ =~= hex_lower(b@.take(i + 1)));
    }
    assert(b@.take(b.len() as int) =~= b@);
    proof {
        lemma_hex_len(b@);
    }
    s
}

fn text_bytes(s: &String) -> (r: Vec<u8>)
    ensures
        r@ == ascii_bytes(s@),
{
    let cs = chars_of(s.as_str());
    let mut r: Vec<u8> = Vec::new();
    for i in 0..cs.len()
        invariant
            cs@ == s@,
            r@ == ascii_bytes(s@.take(i as int)),
    {
        r.push((cs[i] as u32) as u8);
        assert(ascii_bytes(s@.take(i + 1)) =~= ascii_bytes(s@.take(i as int)).push((cs@[i as int] as u32) as u8));
    }
    assert(s@.take(cs.len() as int) =~= s@);
    r
}

/// The canonical text of a deal: the least PBN text among its rotations.
pub fn canonical_pbn(deal: &Deal) -> (s: String)
    ensures
        s@ == canonical_text(deal_view(deal)),
{
    proof {
        reveal(north_text);
    }
    let t0 = deal.rotate(0).to_pbn(Direction::North);
    let t1 = deal.rotate(1).to_pbn(Direction::North);
    let t2 = deal.rotate(2).to_pbn(Direction::North);
    let t3 = deal.rotate(3).to_pbn(Direction::North);
    let m01 = if string_less(&t1, &t0) { t1 } else { t0 };
    let m012 = if string_less(&t2, &m01) { t2 } else { m01 };
    let m = if string_less(&t3, &m012) { t3 } else { m012 };
    m
}

/// Rotation-invariant hash of a deal's identity: lower-case hex SHA-256 of
/// the canonical PBN text.
pub fn content_hash(deal: &Deal) -> (h: String)
    ensures
        h@ == content_hash_spec(deal_view(deal)),
        h@.len() == 64,
{
    let canonical = canonical_pbn(deal);
    let bytes = text_bytes(&canonical);
    let digest = sha256(&bytes);
    to_hex_lower(&digest)
}

} // verus!
