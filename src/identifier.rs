use crate::codec::{append_bytes, copy_range};
use crate::error::IggyError;
use vstd::prelude::*;
use vstd::bytes::{spec_u32_from_le_bytes, spec_u32_to_le_bytes, u32_from_le_bytes, u32_to_le_bytes};

verus! {

/// The code of a numeric identifier on the wire.
pub const NUMERIC_KIND_CODE: u8 = 1;

/// The code of a named identifier on the wire.
pub const STRING_KIND_CODE: u8 = 2;

/// Whether an identifier holds a 32-bit number or a name.
#[derive(Debug, Clone, Copy, PartialEq, Eq, Structural, Hash, PartialOrd, Ord)]
pub enum IdKind {
    Numeric,
    String,
}

pub open spec fn kind_code(k: IdKind) -> u8 {
    match k {
        IdKind::Numeric => NUMERIC_KIND_CODE,
        IdKind::String => STRING_KIND_CODE,
    }
}

/// What an identifier is: its kind and its raw value bytes.
pub struct IdentifierView {
    pub kind: IdKind,
    pub value: Seq<u8>,
}

/// A value of a given kind is well formed: a number is four little-endian
/// bytes, a name is 1 to 255 bytes.
pub open spec fn valid_identifier(v: IdentifierView) -> bool {
    match v.kind {
        IdKind::Numeric => v.value.len() == 4,
        IdKind::String => 1 <= v.value.len() <= 255,
    }
}

/// Wire form of an identifier: kind code, length, value bytes.
pub open spec fn spec_identifier_bytes(v: IdentifierView) -> Seq<u8> {
    seq![kind_code(v.kind), v.value.len() as u8] + v.value
}

/// Decoding of an identifier from the front of `b`; bytes after it are ignored.
pub open spec fn spec_identifier_decode(b: Seq<u8>) -> Option<IdentifierView> {
    if b.len() < 3 {
        None
    } else {
        let len = b[1] as int;
        let kind = if b[0] == NUMERIC_KIND_CODE {
            Some(IdKind::Numeric)
        } else if b[0] == STRING_KIND_CODE {
            Some(IdKind::String)
        } else {
            None
        };
        match kind {
            None => None,
            Some(k) => {
                if b.len() < 2 + len {
                    None
                } else {
                    let v = IdentifierView { kind: k, value: b.subrange(2, 2 + len) };
                    if valid_identifier(v) {
                        Some(v)
                    } else {
                        None
                    }
                }
            },
        }
    }
}

/// An identifier of a stream, topic, user or group: a number or a name.
/// Identifiers compare by kind, then by value.
#[derive(Debug, Clone, PartialEq, Eq, Hash, PartialOrd, Ord)]
pub struct Identifier {
    pub kind: IdKind,
    pub length: u8,
    pub value: Vec<u8>,
}

impl View for Identifier {
    type V = IdentifierView;

    open spec fn view(&self) -> IdentifierView {
        IdentifierView { kind: self.kind, value: self.value@ }
    }
}

impl Identifier {
    pub open spec fn wf(&self) -> bool {
        &&& valid_identifier(self@)
        &&& self.length as int == self.value@.len()
    }

    /// `Ok` exactly when the identifier is well formed, else
    /// `InvalidIdentifier`.
    pub fn validate(&self) -> (r: Result<(), IggyError>)
        ensures
            self.wf() ==> r is Ok,
            !self.wf() ==> r == Err::<(), IggyError>(IggyError::InvalidIdentifier),
    {
        let len = self.value.len();
        let valid = match self.kind {
            IdKind::Numeric => len == 4,
            IdKind::String => len >= 1 && len <= 255,
        };
        if valid && self.length as usize == len {
            Ok(())
        } else {
            Err(IggyError::InvalidIdentifier)
        }
    }

    /// A numeric identifier; zero is refused.
    pub fn numeric(value: u32) -> (r: Result<Identifier, IggyError>)
        ensures
            value == 0 ==> r == Err::<Identifier, IggyError>(IggyError::InvalidIdentifier),
            value != 0 ==> r is Ok && r->Ok_0.wf() && r->Ok_0@ == (IdentifierView {
                kind: IdKind::Numeric,
                value: spec_u32_to_le_bytes(value),
            }),
    {
        if value == 0 {
            return Err(IggyError::InvalidIdentifier);
        }
        proof {
            vstd::bytes::lemma_auto_spec_u32_to_from_le_bytes();
        }
        Ok(Identifier { kind: IdKind::Numeric, length: 4, value: u32_to_le_bytes(value) })
    }

    /// A named identifier made of the bytes of `name`; an empty name or one
    /// longer than 255 bytes is refused.
    pub fn named(name: &[u8]) -> (r: Result<Identifier, IggyError>)
        ensures
            (1 <= name@.len() <= 255) ==> r is Ok && r->Ok_0.wf() && r->Ok_0@ == (IdentifierView {
                kind: IdKind::String,
                value: name@,
            }),
            !(1 <= name@.len() <= 255) ==> r == Err::<Identifier, IggyError>(
                IggyError::InvalidIdentifier,
            ),
    {
        if name.len() == 0 || name.len() > 255 {
            return Err(IggyError::InvalidIdentifier);
        }
        let value = copy_range(name, 0, name.len());
        assert(name@.subrange(0, name@.len() as int) =~= name@);
        Ok(Identifier { kind: IdKind::String, length: name.len() as u8, value })
    }

    /// The number held by a numeric identifier.
    pub fn get_u32_value(&self) -> (r: Result<u32, IggyError>)
        requires
            self.wf(),
        ensures
            self.kind == IdKind::Numeric ==> r == Ok::<u32, IggyError>(
                spec_u32_from_le_bytes(self.value@),
            ),
            self.kind == IdKind::String ==> r == Err::<u32, IggyError>(
                IggyError::InvalidIdentifier,
            ),
    {
        match self.kind {
            IdKind::Numeric => Ok(u32_from_le_bytes(self.value.as_slice())),
            IdKind::String => Err(IggyError::InvalidIdentifier),
        }
    }

    /// Number of bytes of the wire form.
    pub fn get_size_bytes(&self) -> (r: usize)
        requires
            self.wf(),
        ensures
            r == spec_identifier_bytes(self@).len(),
    {
        2 + self.value.len()
    }

    /// The wire form: kind code, length, value bytes.
    pub fn as_bytes(&self) -> (r: Vec<u8>)
        ensures
            self.wf() ==> r@ == spec_identifier_bytes(self@),
    {
        let mut out: Vec<u8> = Vec::new();
        let code: u8 = match self.kind {
            IdKind::Numeric => NUMERIC_KIND_CODE,
            IdKind::String => STRING_KIND_CODE,
        };
        out.push(code);
        out.push(self.length);
        append_bytes(&mut out, self.value.as_slice());
        out
    }

    /// Reads an identifier from the front of `bytes`.
    pub fn from_bytes(bytes: &[u8]) -> (r: Result<Identifier, IggyError>)
        ensures
            match spec_identifier_decode(bytes@) {
                Some(v) => r is Ok && r->Ok_0.wf() && r->Ok_0@ == v,
                None => r == Err::<Identifier, IggyError>(IggyError::InvalidIdentifier),
            },
    {
        if bytes.len() < 3 {
            return Err(IggyError::InvalidIdentifier);
        }
        let kind = if bytes[0] == NUMERIC_KIND_CODE {
            IdKind::Numeric
        } else if bytes[0] == STRING_KIND_CODE {
            IdKind::String
        } else {
            return Err(IggyError::InvalidIdentifier);
        };
        let length = bytes[1];
        let len = length as usize;
        if bytes.len() - 2 < len {
            return Err(IggyError::InvalidIdentifier);
        }
        let valid = match kind {
            IdKind::Numeric => len == 4,
            IdKind::String => len >= 1,
        };
        if !valid {
            return Err(IggyError::InvalidIdentifier);
        }
        let value = copy_range(bytes, 2, 2 + len);
        Ok(Identifier { kind, length, value })
    }
}

impl Default for Identifier {
    /// The numeric identifier 1.
    fn default() -> (r: Identifier)
        ensures
            r.wf(),
            r@ == (IdentifierView { kind: IdKind::Numeric, value: spec_u32_to_le_bytes(1) }),
    {
        proof {
            vstd::bytes::lemma_auto_spec_u32_to_from_le_bytes();
        }
        Identifier { kind: IdKind::Numeric, length: 4, value: u32_to_le_bytes(1) }
    }
}

/// Reading back the wire form of a well-formed identifier, with any bytes
/// after it, gives the identifier again.
pub proof fn lemma_identifier_round_trip(v: IdentifierView, rest: Seq<u8>)
    requires
        valid_identifier(v),
    ensures
        spec_identifier_decode(spec_identifier_bytes(v) + rest) == Some(v),
{
    let b = spec_identifier_bytes(v) + rest;
    assert(b[0] == kind_code(v.kind));
    assert(b[1] as int == v.value.len());
    assert(b.subrange(2, 2 + v.value.len() as int) =~= v.value);
}

} // verus!
