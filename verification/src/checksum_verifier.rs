//! Streaming checksum verification: bytes are fed through a SHA-256 digest
//! as they are written to disk, and the final digest is compared against the
//! checksum the package index advertised. The comparison gates the install:
//! nothing is committed unless it matches.

use vstd::prelude::*;

use sha2::Digest;

use crate::text::{DIGIT_NINE, DIGIT_ZERO};

verus! {

/// `a`, the least lower-case hex letter.
pub const HEX_LOWER_A: u8 = 0x61;

/// `f`, the greatest lower-case hex letter.
pub const HEX_LOWER_F: u8 = 0x66;

/// `A`, the least upper-case hex letter.
pub const HEX_UPPER_A: u8 = 0x41;

/// `F`, the greatest upper-case hex letter.
pub const HEX_UPPER_F: u8 = 0x46;

/// How many bytes a SHA-256 digest holds.
pub const SHA256_LEN: usize = 32;

/// The SHA-256 digest of `data`. The digest itself is left unspecified: it
/// is a function of the input bytes alone, computed by an outside crate.
pub uninterp spec fn sha256_of(data: Seq<u8>) -> Seq<u8>;

#[verifier::external_type_specification]
#[verifier::external_body]
pub struct ExSha256(sha2::Sha256);

/// Relies on sha2::Sha256::new (digest::Digest::new): a hasher that has
/// absorbed nothing yet.
#[verifier::external_body]
fn fresh_sha256() -> sha2::Sha256 {
    sha2::Sha256::new()
}

/// The value of one hex digit, if `b` is one.
pub open spec fn spec_hex_val(b: u8) -> Option<u8> {
    if DIGIT_ZERO <= b <= DIGIT_NINE {
        Some((b - DIGIT_ZERO) as u8)
    } else if HEX_LOWER_A <= b <= HEX_LOWER_F {
        Some((b - HEX_LOWER_A + 10) as u8)
    } else if HEX_UPPER_A <= b <= HEX_UPPER_F {
        Some((b - HEX_UPPER_A + 10) as u8)
    } else {
        None
    }
}

/// The bytes a hex string denotes: two digits each, upper or lower case;
/// nothing when a byte is not a hex digit or the length is odd.
pub open spec fn spec_hex_decode(s: Seq<u8>) -> Option<Seq<u8>>
    decreases s.len(),
{
    if s.len() % 2 != 0 {
        None
    } else if s.len() == 0 {
        Some(Seq::<u8>::empty())
    } else {
        match (spec_hex_val(s[0]), spec_hex_val(s[1]), spec_hex_decode(s.skip(2))) {
            (Option::Some(h), Option::Some(l), Option::Some(rest)) => Some(
                seq![(h * 16 + l) as u8] + rest,
            ),
            _ => None,
        }
    }
}

/// The value of one hex digit, as executable code.
fn hex_val(b: u8) -> (r: Option<u8>)
    ensures
        r == spec_hex_val(b),
{
    if DIGIT_ZERO <= b && b <= DIGIT_NINE {
        Some(b - DIGIT_ZERO)
    } else if HEX_LOWER_A <= b && b <= HEX_LOWER_F {
        Some(b - HEX_LOWER_A + 10)
    } else if HEX_UPPER_A <= b && b <= HEX_UPPER_F {
        Some(b - HEX_UPPER_A + 10)
    } else {
        None
    }
}

/// Decode a hex string, as executable code.
pub fn hex_decode(s: &[u8]) -> (r: Option<Vec<u8>>)
    ensures
        match r {
            Some(v) => spec_hex_decode(s@) == Some(v@),
            None => spec_hex_decode(s@) is None,
        },
{
    if s.len() % 2 != 0 {
        return None;
    }
    let mut out: Vec<u8> = Vec::new();
    let mut i: usize = 0;
    proof {
        assert(s@.skip(0) =~= s@);
    }
    while i < s.len()
        invariant
            0 <= i <= s@.len(),
            i % 2 == 0,
            s@.len() % 2 == 0,
            spec_hex_decode(s@) == match spec_hex_decode(s@.skip(i as int)) {
                Option::Some(rest) => Some(out@ + rest),
                Option::None => None::<Seq<u8>>,
            },
        decreases s@.len() - i,
    {
        proof {
            assert(s@.skip(i as int).len() == s@.len() - i);
            assert(s@.skip(i as int)[0] == s@[i as int]);
            assert(s@.skip(i as int)[1] == s@[i as int + 1]);
            assert(s@.skip(i as int).skip(2) =~= s@.skip(i as int + 2));
        }
        let h = match hex_val(s[i]) {
            Option::Some(h) => h,
            Option::None => {
                return None;
            },
        };
        let l = match hex_val(s[i + 1]) {
            Option::Some(l) => l,
            Option::None => {
                return None;
            },
        };
        let ghost pre_out = out@;
        out.push(h * 16 + l);
        proof {
            assert(forall|rest: Seq<u8>|
                pre_out + (seq![(h * 16 + l) as u8] + rest) =~= out@ + rest);
        }
        i = i + 2;
    }
    proof {
        assert(s@.skip(s@.len() as int) =~= Seq::<u8>::empty());
        assert(out@ + Seq::<u8>::empty() =~= out@);
    }
    Some(out)
}

/// A streaming checksum gate: bytes are absorbed as they flow by, and at
/// the end the digest of everything absorbed is compared to the expected
/// checksum. The caller writes the same bytes to disk itself.
///
/// The fields are private so that the hasher always holds exactly the
/// digest state of the bytes `fed` records: the hasher starts fresh beside
/// an empty `fed`, and the one function that feeds it extends `fed` by the
/// same bytes.
pub struct ChecksumVerifier {
    expected: Vec<u8>,
    hasher: sha2::Sha256,
    fed: Ghost<Seq<u8>>,
}

impl ChecksumVerifier {
    /// The checksum this verifier expects.
    pub closed spec fn expected_view(&self) -> Seq<u8> {
        self.expected@
    }

    /// The bytes absorbed so far.
    pub closed spec fn fed_view(&self) -> Seq<u8> {
        self.fed@
    }

    /// A verifier holds a digest-sized expected checksum.
    pub closed spec fn valid(&self) -> bool {
        self.expected@.len() == SHA256_LEN
    }

    /// Build a verifier for a hex-encoded SHA-256 checksum. Nothing is
    /// returned when the text is not hex or not the size of a digest.
    pub fn new(checksum_hex: &[u8]) -> (r: Option<ChecksumVerifier>)
        ensures
            match r {
                Some(v) => {
                    &&& spec_hex_decode(checksum_hex@) == Some(v.expected_view())
                    &&& v.valid()
                    &&& v.fed_view() == Seq::<u8>::empty()
                },
                None => match spec_hex_decode(checksum_hex@) {
                    Option::Some(b) => b.len() != SHA256_LEN,
                    Option::None => true,
                },
            },
    {
        let expected = match hex_decode(checksum_hex) {
            Option::Some(b) => b,
            Option::None => {
                return None;
            },
        };
        if expected.len() != SHA256_LEN {
            return None;
        }
        Some(
            ChecksumVerifier {
                expected,
                hasher: fresh_sha256(),
                fed: Ghost(Seq::<u8>::empty()),
            },
        )
    }

    /// Absorb `buf`. Relies on sha2::Sha256::update (digest::Digest::update):
    /// absorbing bytes extends the input the final digest is computed over.
    #[verifier::external_body]
    pub fn update(&mut self, buf: &[u8])
        ensures
            final(self).fed_view() == old(self).fed_view() + buf@,
            final(self).expected_view() == old(self).expected_view(),
            final(self).valid() == old(self).valid(),
    {
        self.hasher.update(buf);
    }

    /// The digest of everything absorbed, beside the expected checksum.
    /// Relies on sha2::Sha256::finalize (digest::Digest::finalize): the
    /// SHA-256 digest of the absorbed bytes, 32 bytes long, a function of
    /// those bytes alone.
    #[verifier::external_body]
    fn finish(self) -> (r: (Vec<u8>, Vec<u8>))
        ensures
            r.0@ == sha256_of(self.fed@),
            r.0@.len() == SHA256_LEN,
            r.1 == self.expected,
    {
        let digest = self.hasher.finalize();
        (digest.as_slice().to_vec(), self.expected)
    }

    /// Whether the digest of everything absorbed matches the expected
    /// checksum.
    pub fn verify(self) -> (r: bool)
        ensures
            r == (sha256_of(self.fed_view()) == self.expected_view()),
    {
        let ghost fed = self.fed@;
        let ghost expected = self.expected@;
        let (digest, expected_bytes) = self.finish();
        crate::text::bytes_eq(digest.as_slice(), expected_bytes.as_slice())
    }
}

} // verus!
