//! Addresses of the two pools and the key pairs behind them.

use vstd::prelude::*;
use vstd::string::StrSliceExecFns;
use crate::error::{Error, ErrorKind};
use crate::primitives::{
    DIGEST_LEN, blake2b, blake2b_512, hex_decode, hex_decoded, hex_encode, hex_encoded,
    random_bytes,
};

verus! {

/// Length in bytes of a private key.
pub const PRIVATE_KEY_LEN: usize = 32;

/// The pool that an address belongs to.
#[derive(Debug, Clone, Copy, PartialEq, Eq, Structural)]
pub enum AddressType {
    Transparent,
    Shielded,
}

impl AddressType {
    /// The two characters that open the text of an address of this type.
    pub open spec fn prefix(self) -> Seq<char> {
        match self {
            AddressType::Transparent => seq!['t', '1'],
            AddressType::Shielded => seq!['z', '1'],
        }
    }

    /// The prefix as bytes.
    pub open spec fn prefix_bytes(self) -> Seq<u8> {
        match self {
            AddressType::Transparent => seq![0x74u8, 0x31u8],
            AddressType::Shielded => seq![0x7au8, 0x31u8],
        }
    }

    /// The name of the type.
    pub open spec fn name(self) -> Seq<char> {
        match self {
            AddressType::Transparent => "t-addr"@,
            AddressType::Shielded => "z-addr"@,
        }
    }

    /// The name of the type: `t-addr` or `z-addr`.
    pub fn to_string(&self) -> (s: String)
        ensures
            s@ == self.name(),
    {
        match self {
            AddressType::Transparent => "t-addr".to_owned(),
            AddressType::Shielded => "z-addr".to_owned(),
        }
    }
}

/// A key pair for one of the two pools.
#[derive(Debug, Clone)]
pub struct KeyPair {
    pub key_type: AddressType,
    pub private_key: Vec<u8>,
    pub public_key: Vec<u8>,
}

impl KeyPair {
    /// A new key pair: a private key of 32 fresh bytes and, as its public
    /// key, the digest of the private key.
    pub fn generate(key_type: AddressType) -> (res: Result<KeyPair, Error>)
        ensures
            res is Ok,
            res->Ok_0.key_type == key_type,
            res->Ok_0.private_key@.len() == PRIVATE_KEY_LEN,
            res->Ok_0.public_key@ == blake2b_512(res->Ok_0.private_key@),
            res->Ok_0.public_key@.len() == DIGEST_LEN,
    {
        let private_key = random_bytes(PRIVATE_KEY_LEN);
        let public_key = blake2b(private_key.as_slice());
        Ok(KeyPair { key_type, private_key, public_key })
    }
}

/// An address of one of the two pools.
#[derive(Debug, Clone)]
pub struct Address {
    pub address_type: AddressType,
    pub data: Vec<u8>,
}

/// An address as a mathematical value.
pub struct AddressView {
    pub address_type: AddressType,
    pub data: Seq<u8>,
}

impl View for Address {
    type V = AddressView;

    open spec fn view(&self) -> AddressView {
        AddressView { address_type: self.address_type, data: self.data@ }
    }
}

impl AddressView {
    /// The text of the address: the prefix of its type, then its data in
    /// hexadecimal.
    pub open spec fn text(self) -> Seq<char> {
        self.address_type.prefix() + hex_encoded(self.data)
    }
}

/// The address that a text names: at least three characters, a known
/// prefix, and hexadecimal data behind it.
pub open spec fn parsed_address(text: Seq<char>) -> Option<AddressView> {
    if text.len() < 3 {
        None
    } else {
        let rest = text.subrange(2, text.len() as int);
        if text[0] == 't' && text[1] == '1' {
            match hex_decoded(rest) {
                Some(data) => Some(AddressView { address_type: AddressType::Transparent, data }),
                None => None,
            }
        } else if text[0] == 'z' && text[1] == '1' {
            match hex_decoded(rest) {
                Some(data) => Some(AddressView { address_type: AddressType::Shielded, data }),
                None => None,
            }
        } else {
            None
        }
    }
}

impl Address {
    /// The address of a key pair: the digest of the public key followed by
    /// the prefix of its type.
    pub fn from_key_pair(key_pair: &KeyPair) -> (res: Result<Address, Error>)
        ensures
            res is Ok,
            res->Ok_0@.address_type == key_pair.key_type,
            res->Ok_0@.data == blake2b_512(
                key_pair.public_key@ + key_pair.key_type.prefix_bytes(),
            ),
            res->Ok_0@.data.len() == DIGEST_LEN,
    {
        let mut material: Vec<u8> = Vec::new();
        crate::wire::put_raw(&mut material, key_pair.public_key.as_slice());
        match key_pair.key_type {
            AddressType::Transparent => {
                material.push(0x74u8);
                material.push(0x31u8);
            },
            AddressType::Shielded => {
                material.push(0x7au8);
                material.push(0x31u8);
            },
        }
        assert(material@ =~= key_pair.public_key@ + key_pair.key_type.prefix_bytes());
        let data = blake2b(material.as_slice());
        Ok(Address { address_type: key_pair.key_type, data })
    }

    /// The text of the address.
    pub fn to_string(&self) -> (s: String)
        ensures
            s@ == self@.text(),
    {
        let hex = hex_encode(self.data.as_slice());
        proof {
            reveal_strlit("t1");
            reveal_strlit("z1");
        }
        let s = match self.address_type {
            AddressType::Transparent => crate::error::joined("t1", hex.as_str()),
            AddressType::Shielded => crate::error::joined("z1", hex.as_str()),
        };
        assert(s@ =~= self@.text());
        s
    }

    /// Reads an address from its text.
    pub fn from_string(s: &str) -> (res: Result<Address, Error>)
        ensures
            match parsed_address(s@) {
                Some(address) => res is Ok && res->Ok_0@ == address,
                None => res is Err && res->Err_0.kind() == ErrorKind::InvalidAddress,
            },
    {
        let n = s.unicode_len();
        if n < 3 {
            return Err(Error::invalid_address("Address too short"));
        }
        let first = s.get_char(0);
        let second = s.get_char(1);
        let address_type = if first == 't' && second == '1' {
            AddressType::Transparent
        } else if first == 'z' && second == '1' {
            AddressType::Shielded
        } else {
            return Err(Error::invalid_address("Invalid address prefix"));
        };
        match hex_decode(s.substring_char(2, n)) {
            Some(data) => Ok(Address { address_type, data }),
            None => Err(Error::invalid_address("Invalid hex")),
        }
    }

    /// A copy of the address.
    pub fn duplicate(&self) -> (copy: Address)
        ensures
            copy@ == self@,
    {
        Address {
            address_type: self.address_type,
            data: crate::connect::copy_bytes(&self.data),
        }
    }
}

} // verus!
