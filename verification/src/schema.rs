//! The schema pool: a runtime registry of message descriptors, loaded once
//! at startup by the caller and read-only afterwards. A descriptor lists the
//! fields of one message type: wire field number, wire name, kind, and
//! whether the field is repeated.

use vstd::prelude::*;

verus! {

#[derive(Clone, Copy, Debug, PartialEq, Eq, Structural)]
pub enum FieldKind {
    /// Unsigned integer, encoded as a varint record.
    U64,
    /// Text, encoded as a length-delimited record, emitted verbatim.
    Str,
    /// Opaque bytes, length-delimited, emitted in base64.
    Bytes,
}

pub struct FieldDesc {
    pub number: u64,
    pub name: Vec<u8>,
    pub kind: FieldKind,
    pub repeated: bool,
}

pub struct MsgDesc {
    pub name: Vec<u8>,
    pub fields: Vec<FieldDesc>,
}

pub struct SchemaPool {
    pub msgs: Vec<MsgDesc>,
}

pub struct FieldV {
    pub number: u64,
    pub name: Seq<u8>,
    pub kind: FieldKind,
    pub repeated: bool,
}

pub struct MsgV {
    pub name: Seq<u8>,
    pub fields: Seq<FieldV>,
}

pub open spec fn field_view(f: FieldDesc) -> FieldV {
    FieldV { number: f.number, name: f.name@, kind: f.kind, repeated: f.repeated }
}

pub open spec fn msg_view(m: MsgDesc) -> MsgV {
    MsgV { name: m.name@, fields: m.fields@.map_values(|f: FieldDesc| field_view(f)) }
}

pub open spec fn pool_view(p: SchemaPool) -> Seq<MsgV> {
    p.msgs@.map_values(|m: MsgDesc| msg_view(m))
}

/// The first descriptor named `name`, if any.
pub open spec fn spec_resolve(pool: Seq<MsgV>, name: Seq<u8>) -> Option<MsgV>
    decreases pool.len(),
{
    if pool.len() == 0 {
        None
    } else if pool[0].name == name {
        Some(pool[0])
    } else {
        spec_resolve(pool.drop_first(), name)
    }
}

/// Skipping descriptors whose names all differ from `name` leaves the
/// lookup's answer unchanged.
proof fn lemma_resolve_skip(pool: Seq<MsgV>, name: Seq<u8>, i: int)
    requires
        0 <= i <= pool.len(),
        forall|j: int| 0 <= j < i ==> pool[j].name != name,
    ensures
        spec_resolve(pool, name) == spec_resolve(pool.skip(i), name),
    decreases i,
{
    if i == 0 {
        assert(pool.skip(0) =~= pool);
    } else {
        lemma_resolve_skip(pool, name, i - 1);
        assert(pool.skip(i - 1).drop_first() =~= pool.skip(i));
        assert(pool.skip(i - 1)[0] == pool[i - 1]);
    }
}

impl SchemaPool {
    /// Descriptor lookup by message or method name.
    pub fn resolve(&self, name: &[u8]) -> (r: Option<&MsgDesc>)
        ensures
            match r {
                Some(d) => spec_resolve(pool_view(*self), name@) == Some(msg_view(*d)),
                None => spec_resolve(pool_view(*self), name@) is None,
            },
    {
        let n: usize = self.msgs.len();
        let mut i: usize = 0;
        while i < n
            invariant
                n == self.msgs@.len(),
                0 <= i <= n,
                forall|j: int| 0 <= j < i ==> pool_view(*self)[j].name != name@,
            decreases n - i,
        {
            if crate::bytesutil::bytes_eq(self.msgs[i].name.as_slice(), name) {
                proof {
                    lemma_resolve_skip(pool_view(*self), name@, i as int);
                    assert(pool_view(*self).skip(i as int)[0] == pool_view(*self)[i as int]);
                }
                return Some(&self.msgs[i]);
            }
            assert(pool_view(*self)[i as int].name == self.msgs@[i as int].name@);
            i = i + 1;
        }
        proof {
            lemma_resolve_skip(pool_view(*self), name@, n as int);
            assert(pool_view(*self).skip(n as int).len() == 0);
        }
        None
    }
}

} // verus!
