//! Strong-typed identifiers.
//!
//! Each newtype wraps a plain value so that a session id cannot be passed
//! where a speaker or a chunk number is expected.

use std::cmp::Ordering;

use uuid::Uuid;
use vstd::arithmetic::div_mod::{lemma_div_denominator, lemma_fundamental_div_mod};
use vstd::arithmetic::power::{lemma_pow1, lemma_pow_adds, lemma_pow_positive, pow};
use vstd::prelude::*;
use vstd::std_specs::cmp::PartialOrdSpec;

use crate::text::{decimal, decimal_text};

verus! {

/// The lower-case hexadecimal digit of `d`, for `d` below sixteen.
pub open spec fn hex_char(d: nat) -> char {
    if d < 10 {
        (48 + d) as char
    } else {
        (87 + d) as char
    }
}

/// The `k`-th hexadecimal digit of the 32 digits of `v`, from the left.
pub open spec fn nibble(v: u128, k: int) -> nat {
    ((v as int / pow(16, (31 - k) as nat)) % 16) as nat
}

/// How many hyphens stand before index `i` of a hyphenated id.
pub open spec fn hyphens_before(i: int) -> int {
    if i <= 8 {
        0
    } else if i <= 13 {
        1
    } else if i <= 18 {
        2
    } else if i <= 23 {
        3
    } else {
        4
    }
}

/// The hyphenated form of a 128-bit id: 32 lower-case hexadecimal digits in
/// groups of 8, 4, 4, 4 and 12.
pub open spec fn hyphenated(v: u128) -> Seq<char> {
    Seq::new(
        36,
        |i: int|
            if i == 8 || i == 13 || i == 18 || i == 23 {
                '-'
            } else {
                hex_char(nibble(v, i - hyphens_before(i)))
            },
    )
}

/// Calls `uuid::Uuid::from_u128` and formats the id with `Display`, which
/// writes its 36-character lower-case hyphenated form.
#[verifier::external_body]
pub(crate) fn uuid_text(v: u128) -> (s: String)
    ensures
        s@ == hyphenated(v),
{
    Uuid::from_u128(v).to_string()
}

proof fn hex_char_injective(a: nat, b: nat)
    requires
        a < 16,
        b < 16,
        hex_char(a) == hex_char(b),
    ensures
        a == b,
{
    assert((hex_char(a) as int) == (if a < 10 { 48 + a } else { 87 + a }));
    assert((hex_char(b) as int) == (if b < 10 { 48 + b } else { 87 + b }));
}

proof fn pow_16_32()
    ensures
        pow(16, 32) == u128::MAX + 1,
{
    lemma_pow1(16);
    lemma_pow_adds(16, 1, 1);
    assert(pow(16, 2) == 0x100);
    lemma_pow_adds(16, 2, 2);
    assert(pow(16, 4) == 0x100 * 0x100);
    lemma_pow_adds(16, 4, 4);
    assert(pow(16, 8) == 0x1_0000 * 0x1_0000);
    lemma_pow_adds(16, 8, 8);
    assert(pow(16, 16) == 0x1_0000_0000 * 0x1_0000_0000);
    lemma_pow_adds(16, 16, 16);
    assert(pow(16, 32) == 0x1_0000_0000_0000_0000 * 0x1_0000_0000_0000_0000);
}

proof fn quotients_agree(a: u128, b: u128, m: nat)
    requires
        m <= 32,
        forall|k: int| 0 <= k < 32 ==> nibble(a, k) == nibble(b, k),
    ensures
        a as int / pow(16, m) == b as int / pow(16, m),
    decreases 32 - m,
{
    lemma_pow_positive(16, m);
    if m == 32 {
        pow_16_32();
        assert(a as int / pow(16, 32) == 0);
        assert(b as int / pow(16, 32) == 0);
    } else {
        quotients_agree(a, b, m + 1);
        lemma_pow1(16);
        lemma_pow_adds(16, m, 1);
        lemma_div_denominator(a as int, pow(16, m), 16);
        lemma_div_denominator(b as int, pow(16, m), 16);
        lemma_fundamental_div_mod(a as int / pow(16, m), 16);
        lemma_fundamental_div_mod(b as int / pow(16, m), 16);
        assert(nibble(a, 31 - m) == nibble(b, 31 - m));
    }
}

/// Two sessions never share a hyphenated id.
pub proof fn hyphenated_ids_differ(a: u128, b: u128)
    requires
        hyphenated(a) == hyphenated(b),
    ensures
        a == b,
{
    assert forall|k: int| 0 <= k < 32 implies nibble(a, k) == nibble(b, k) by {
        let i: int = if k < 8 {
            k
        } else if k < 12 {
            k + 1
        } else if k < 16 {
            k + 2
        } else if k < 20 {
            k + 3
        } else {
            k + 4
        };
        assert(i - hyphens_before(i) == k);
        assert(hyphenated(a)[i] == hex_char(nibble(a, k)));
        assert(hyphenated(b)[i] == hex_char(nibble(b, k)));
        hex_char_injective(nibble(a, k), nibble(b, k));
    }
    quotients_agree(a, b, 0);
    vstd::arithmetic::power::lemma_pow0(16);
}

/// A session's UUID, as its 128 bits.
#[derive(Clone, Copy, Debug, PartialEq, Eq, Structural, Hash)]
pub struct SessionId(pub u128);

impl SessionId {
    pub fn new(u: u128) -> (id: SessionId)
        ensures
            id.0 == u,
    {
        SessionId(u)
    }

    pub fn as_uuid(&self) -> (u: u128)
        ensures
            u == self.0,
    {
        self.0
    }

    /// The id's hyphenated text.
    pub fn to_text(&self) -> (s: String)
        ensures
            s@ == hyphenated(self.0),
    {
        uuid_text(self.0)
    }
}

impl From<u128> for SessionId {
    fn from(u: u128) -> (id: SessionId) {
        SessionId(u)
    }
}

impl vstd::std_specs::convert::FromSpecImpl<u128> for SessionId {
    open spec fn obeys_from_spec() -> bool {
        true
    }

    open spec fn from_spec(u: u128) -> SessionId {
        SessionId(u)
    }
}

/// A speaker's pseudonymous id. The data-api enforces its format; here it is
/// opaque text.
#[derive(Debug, Eq, Hash)]
pub struct PseudoId(pub String);

impl View for PseudoId {
    type V = Seq<char>;

    open spec fn view(&self) -> Seq<char> {
        self.0@
    }
}

impl Clone for PseudoId {
    fn clone(&self) -> (p: PseudoId)
        ensures
            p == *self,
    {
        PseudoId(self.0.clone())
    }
}

impl PartialEq for PseudoId {
    fn eq(&self, other: &PseudoId) -> (r: bool) {
        self.0 == other.0
    }
}

impl vstd::std_specs::cmp::PartialEqSpecImpl for PseudoId {
    open spec fn obeys_eq_spec() -> bool {
        true
    }

    open spec fn eq_spec(&self, other: &PseudoId) -> bool {
        self.0@ == other.0@
    }
}

impl PseudoId {
    pub fn new(s: String) -> (p: PseudoId)
        ensures
            p.0 == s,
            p@ == s@,
    {
        PseudoId(s)
    }

    pub fn as_str(&self) -> (s: &str)
        ensures
            s@ == self@,
    {
        self.0.as_str()
    }
}

/// Chunk sequence number, counted per session and speaker.
#[derive(Clone, Copy, Debug, PartialEq, Eq, Ord, Structural, Hash)]
pub struct ChunkSeq(pub u32);

/// Chunk numbers are ordered as numbers.
impl PartialOrd for ChunkSeq {
    fn partial_cmp(&self, other: &ChunkSeq) -> (r: Option<Ordering>) {
        if self.0 < other.0 {
            Some(Ordering::Less)
        } else if self.0 == other.0 {
            Some(Ordering::Equal)
        } else {
            Some(Ordering::Greater)
        }
    }
}

impl vstd::std_specs::cmp::PartialOrdSpecImpl for ChunkSeq {
    open spec fn obeys_partial_cmp_spec() -> bool {
        true
    }

    open spec fn partial_cmp_spec(&self, other: &ChunkSeq) -> Option<Ordering> {
        if self.0 < other.0 {
            Some(Ordering::Less)
        } else if self.0 == other.0 {
            Some(Ordering::Equal)
        } else {
            Some(Ordering::Greater)
        }
    }
}

/// The order of chunk numbers is that of the numbers they hold, and two of them
/// are equal when they hold the same number.
pub proof fn chunk_order_is_number_order(n: u32, m: u32)
    ensures
        ChunkSeq(n).partial_cmp_spec(&ChunkSeq(m)) == Some(Ordering::Less) <==> n < m,
        ChunkSeq(n).partial_cmp_spec(&ChunkSeq(m)) == Some(Ordering::Equal) <==> n == m,
        ChunkSeq(n).partial_cmp_spec(&ChunkSeq(m)) == Some(Ordering::Greater) <==> n > m,
        ChunkSeq(n) == ChunkSeq(m) <==> n == m,
{
}

impl ChunkSeq {
    pub fn new(n: u32) -> (q: ChunkSeq)
        ensures
            q.0 == n,
    {
        ChunkSeq(n)
    }

    pub fn as_u32(&self) -> (n: u32)
        ensures
            n == self.0,
    {
        self.0
    }

    /// The number in decimal.
    pub fn to_text(&self) -> (s: String)
        ensures
            s@ == decimal(self.0 as nat),
    {
        decimal_text(self.0 as u64)
    }
}

/// The session, speaker and number that together identify one chunk.
#[derive(Clone, Debug, PartialEq, Eq, Hash)]
pub struct ChunkId {
    pub session: SessionId,
    pub pseudo: PseudoId,
    pub seq: ChunkSeq,
}

impl ChunkId {
    pub fn new(session: SessionId, pseudo: PseudoId, seq: ChunkSeq) -> (id: ChunkId)
        ensures
            id == (ChunkId { session, pseudo, seq }),
    {
        ChunkId { session, pseudo, seq }
    }

    /// `session/pseudo/seq`.
    pub fn to_text(&self) -> (s: String)
        ensures
            s@ == hyphenated(self.session.0) + "/"@ + self.pseudo@ + "/"@ + decimal(
                self.seq.0 as nat,
            ),
    {
        self.session.to_text().concat("/").concat(self.pseudo.as_str()).concat("/").concat(
            self.seq.to_text().as_str(),
        )
    }
}

} // verus!
