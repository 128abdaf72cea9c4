//! 32-byte account keys and block hashes.
use vstd::prelude::*;

verus! {

/// A 32-byte account identifier.
#[derive(Clone, Copy, Debug)]
pub struct Pubkey {
    pub bytes: [u8; 32],
}

impl View for Pubkey {
    type V = Seq<u8>;

    open spec fn view(&self) -> Seq<u8> {
        self.bytes@
    }
}

impl Pubkey {
    /// The key made of the given bytes.
    pub fn new_from_array(bytes: [u8; 32]) -> (r: Pubkey)
        ensures
            r@ == bytes@,
    {
        Pubkey { bytes }
    }

    /// Byte-wise equality of two keys.
    pub fn same_as(&self, other: &Pubkey) -> (r: bool)
        ensures
            r == (self@ == other@),
    {
        let mut i: usize = 0;
        while i < 32
            invariant
                0 <= i <= 32,
                self.bytes@.len() == 32,
                other.bytes@.len() == 32,
                forall|j: int| 0 <= j < i ==> self.bytes@[j] == other.bytes@[j],
            decreases 32 - i,
        {
            if self.bytes[i] != other.bytes[i] {
                return false;
            }
            i = i + 1;
        }
        assert(self@ =~= other@);
        true
    }
}

/// Whether `k` occurs among `keys`.
pub open spec fn contains_key(keys: Seq<Pubkey>, k: Seq<u8>) -> bool {
    exists|i: int| 0 <= i < keys.len() && keys[i]@ == k
}

/// Membership of `key` in `keys`.
pub fn find_key(keys: &[Pubkey], key: &Pubkey) -> (r: bool)
    ensures
        r == contains_key(keys@, key@),
{
    let mut i: usize = 0;
    while i < keys.len()
        invariant
            0 <= i <= keys@.len(),
            forall|j: int| 0 <= j < i ==> keys@[j]@ != key@,
        decreases keys@.len() - i,
    {
        if keys[i].same_as(key) {
            return true;
        }
        i = i + 1;
    }
    false
}


/// Why a base58 key was refused.
#[derive(Clone, Copy, Debug, PartialEq, Eq, Structural)]
pub enum PubkeyError {
    WrongSize,
    Invalid,
}

/// The 32 bytes that a base58 text decodes to, if it is a valid key.
pub uninterp spec fn decode_pubkey(s: Seq<char>) -> Option<Seq<u8>>;

/// The base58 text of a key.
pub uninterp spec fn pubkey_text_of(k: Seq<u8>) -> Seq<char>;

/// The base58 text of a block hash.
pub uninterp spec fn hash_text_of(h: Seq<u8>) -> Seq<char>;

/// Relies on `FromStr for solana_sdk::pubkey::Pubkey`: base58 text of
/// exactly 32 bytes is accepted, anything else refused.
#[verifier::external_body]
pub(crate) fn parse_pubkey(s: &str) -> (r: Result<Pubkey, PubkeyError>)
    ensures
        match r {
            Ok(k) => decode_pubkey(s@) == Some(k@),
            Err(_) => decode_pubkey(s@) is None,
        },
{
    match s.parse::<solana_sdk::pubkey::Pubkey>() {
        Ok(k) => Ok(Pubkey { bytes: k.to_bytes() }),
        Err(solana_sdk::pubkey::ParsePubkeyError::WrongSize) => Err(PubkeyError::WrongSize),
        Err(_) => Err(PubkeyError::Invalid),
    }
}

/// Relies on `Display for solana_sdk::pubkey::Pubkey`: the key's base58 text.
#[verifier::external_body]
pub(crate) fn pubkey_text(k: &Pubkey) -> (r: String)
    ensures
        r@ == pubkey_text_of(k@),
{
    solana_sdk::pubkey::Pubkey::new_from_array(k.bytes).to_string()
}

/// Relies on `Display for solana_sdk::hash::Hash`: the hash's base58 text.
#[verifier::external_body]
pub(crate) fn hash_text(h: &[u8; 32]) -> (r: String)
    ensures
        r@ == hash_text_of(h@),
{
    solana_sdk::hash::Hash::new_from_array(*h).to_string()
}

/// The keys that all texts decode to, or absent if one of them does not.
pub open spec fn decode_all(strs: Seq<String>) -> Option<Seq<Seq<u8>>>
    decreases strs.len(),
{
    if strs.len() == 0 {
        Some(Seq::empty())
    } else {
        match (decode_all(strs.drop_last()), decode_pubkey(strs.last()@)) {
            (Some(ks), Some(k)) => Some(ks.push(k)),
            _ => None,
        }
    }
}

/// Index of the first text that is not a valid key.
pub open spec fn first_invalid(strs: Seq<String>, i: int) -> bool {
    0 <= i < strs.len() && decode_pubkey(strs[i]@) is None
        && forall|j: int| 0 <= j < i ==> decode_pubkey(strs[j]@) is Some
}

/// Parses every text into a key; on the first invalid one returns its index
/// and the error.
pub fn parse_pubkeys(strs: &Vec<String>) -> (r: Result<Vec<Pubkey>, (usize, PubkeyError)>)
    ensures
        match r {
            Ok(ks) => decode_all(strs@) == Some(ks@.map_values(|k: Pubkey| k@)),
            Err((i, _)) => decode_all(strs@) is None && first_invalid(strs@, i as int),
        },
{
    let mut out: Vec<Pubkey> = Vec::new();
    let mut i: usize = 0;
    while i < strs.len()
        invariant
            0 <= i <= strs@.len(),
            decode_all(strs@.take(i as int)) == Some(out@.map_values(|k: Pubkey| k@)),
            forall|j: int| 0 <= j < i ==> decode_pubkey(strs@[j]@) is Some,
        decreases strs@.len() - i,
    {
        proof {
            assert(strs@.take(i + 1).drop_last() =~= strs@.take(i as int));
        }
        match parse_pubkey(strs[i].as_str()) {
            Ok(k) => {
                let ghost prev = out@;
                out.push(k);
                proof {
                    assert(out@.map_values(|k: Pubkey| k@) =~= prev.map_values(|k: Pubkey| k@).push(k@));
                }
            },
            Err(e) => {
                proof {
                    lemma_decode_all_none(strs@, i as int);
                }
                return Err((i, e));
            },
        }
        i = i + 1;
    }
    proof {
        assert(strs@.take(strs@.len() as int) =~= strs@);
    }
    Ok(out)
}

/// One text that does not decode makes the whole list fail.
pub proof fn lemma_decode_all_none(strs: Seq<String>, i: int)
    requires
        0 <= i < strs.len(),
        decode_pubkey(strs[i]@) is None,
    ensures
        decode_all(strs) is None,
    decreases strs.len(),
{
    if i < strs.len() - 1 {
        lemma_decode_all_none(strs.drop_last(), i);
    }
}


/// A successful decoding has one key per text.
pub proof fn lemma_decode_all_len(strs: Seq<String>)
    requires
        decode_all(strs) is Some,
    ensures
        decode_all(strs)->0.len() == strs.len(),
    decreases strs.len(),
{
    if strs.len() > 0 {
        lemma_decode_all_len(strs.drop_last());
    }
}

} // verus!
