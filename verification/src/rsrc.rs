//! Extract resource data from resource forks of "classic" Macintosh files.
//!
//! Classic Mac files were divided into two "forks": the data fork and the
//! resource fork. The data fork contained arbitrary, application-defined
//! data (like single-stream files familiar to most of us today). The
//! resource fork contained a structured map of well-defined data structures
//! that represented things like UI elements, sounds, and images.
//!
//! Current filesystems don't have a notion of a resource fork; resource
//! forks are now generally represented as separate files, as
//! filesystem-level metadata, or sometimes in archives (like BinHex) that
//! encode both forks of a file.

use vstd::prelude::*;
use vstd::string::StringSliceAdditionalSpecFns;

use crate::be::{spec_u16_be, spec_u16_of, spec_u32_be, spec_u32_of, u16_be, u32_be};
use crate::text::{decode_mac_roman, encode_mac_roman, mac_roman_decoding, mac_roman_encoding};

verus! {

/// The name-list offset that marks a resource without a name.
pub const NO_NAME: u16 = 0xffff;

/// A resource type identifier.
///
/// Resource type identifiers are commonly represented as four-character
/// ASCII strings in user-facing contexts.
#[derive(Copy, Clone, Debug, Hash)]
pub struct ResourceType {
    /// The four Macintosh-Roman bytes of the identifier.
    pub bytes: [u8; 4],
}

impl PartialEq for ResourceType {
    /// Two identifiers are equal when their four bytes are.
    fn eq(&self, other: &ResourceType) -> (r: bool) {
        let r = self.bytes[0] == other.bytes[0] && self.bytes[1] == other.bytes[1]
            && self.bytes[2] == other.bytes[2] && self.bytes[3] == other.bytes[3];
        proof {
            if r {
                assert(self.bytes@ =~= other.bytes@);
                assert(self.bytes =~= other.bytes);
            }
        }
        r
    }
}

impl Eq for ResourceType {

}

impl vstd::std_specs::cmp::PartialEqSpecImpl for ResourceType {
    open spec fn obeys_eq_spec() -> bool {
        true
    }

    open spec fn eq_spec(&self, other: &ResourceType) -> bool {
        self.bytes == other.bytes
    }
}

/// The error type for operations on `ResourceType` instances.
#[derive(Debug, PartialEq, Eq, Structural)]
pub enum ResourceTypeError {
    /// A resource type could not be constructed from the given string
    /// because the string contained characters that could not be
    /// represented as a single byte in the Macintosh character encoding.
    IllegalCharacters,

    /// The given string or slice was not exactly four bytes long.
    BadLength(usize),
}

impl ResourceType {
    /// Wraps four raw identifier bytes.
    pub fn from_bytes(bytes: [u8; 4]) -> (r: ResourceType)
        ensures
            r.bytes == bytes,
    {
        ResourceType { bytes }
    }

    /// Reads an identifier from a slice, which must be exactly four bytes
    /// long.
    pub fn try_from_slice(slice: &[u8]) -> (r: Result<ResourceType, ResourceTypeError>)
        ensures
            slice@.len() == 4 ==> (r matches Ok(t) && t.bytes@ == slice@),
            slice@.len() != 4 ==> r == Err::<ResourceType, ResourceTypeError>(
                ResourceTypeError::BadLength(slice@.len() as usize),
            ),
    {
        if slice.len() == 4 {
            let t = ResourceType { bytes: [slice[0], slice[1], slice[2], slice[3]] };
            proof {
                assert(t.bytes@ =~= slice@);
            }
            Ok(t)
        } else {
            Err(ResourceTypeError::BadLength(slice.len()))
        }
    }

    /// Encodes a string as an identifier. The string must be four bytes
    /// long (measured in UTF-8) and every character must exist in the
    /// Macintosh-Roman encoding, which must yield exactly four bytes.
    pub fn try_from_str(value: &str) -> (r: Result<ResourceType, ResourceTypeError>)
        ensures
            value.spec_bytes().len() as usize != 4 ==> r == Err::<ResourceType, ResourceTypeError>(
                ResourceTypeError::BadLength(value.spec_bytes().len() as usize),
            ),
            value.spec_bytes().len() as usize == 4 && mac_roman_encoding(value@) is None ==> r
                == Err::<ResourceType, ResourceTypeError>(ResourceTypeError::IllegalCharacters),
            (value.spec_bytes().len() as usize == 4 && mac_roman_encoding(value@) is Some) ==> ({
                let encoded = mac_roman_encoding(value@).unwrap();
                if encoded.len() == 4 {
                    r matches Ok(t) && t.bytes@ == encoded
                } else {
                    r == Err::<ResourceType, ResourceTypeError>(
                        ResourceTypeError::IllegalCharacters,
                    )
                }
            }),
    {
        if value.len() != 4 {
            return Err(ResourceTypeError::BadLength(value.len()));
        }
        match encode_mac_roman(value) {
            None => Err(ResourceTypeError::IllegalCharacters),
            Some(encoded) => {
                if encoded.len() == 4 {
                    let t = ResourceType {
                        bytes: [encoded[0], encoded[1], encoded[2], encoded[3]],
                    };
                    proof {
                        assert(t.bytes@ =~= encoded@);
                    }
                    Ok(t)
                } else {
                    Err(ResourceTypeError::IllegalCharacters)
                }
            },
        }
    }

    /// The identifier as text, decoded from Macintosh-Roman.
    pub fn to_text(&self) -> (r: String)
        ensures
            r@ == mac_roman_decoding(self.bytes@),
    {
        decode_mac_roman(self.bytes.as_slice())
    }

    /// Whether the given string names this identifier: its Macintosh-Roman
    /// encoding must exist and equal the identifier's bytes.
    pub fn matches_str(&self, value: &str) -> (r: bool)
        ensures
            r == (mac_roman_encoding(value@) matches Some(encoded) && encoded
                == self.bytes@),
    {
        match encode_mac_roman(value) {
            None => false,
            Some(encoded) => {
                if encoded.len() != 4 {
                    proof {
                        assert(encoded@ != self.bytes@);
                    }
                    false
                } else {
                    let r = encoded[0] == self.bytes[0] && encoded[1] == self.bytes[1]
                        && encoded[2] == self.bytes[2] && encoded[3] == self.bytes[3];
                    proof {
                        if r {
                            assert(encoded@ =~= self.bytes@);
                        }
                    }
                    r
                }
            },
        }
    }

    /// Whether the given slice holds exactly this identifier's bytes.
    pub fn matches_slice(&self, slice: &[u8]) -> (r: bool)
        ensures
            r == (slice@ == self.bytes@),
    {
        if slice.len() != 4 {
            proof {
                assert(slice@ != self.bytes@);
            }
            false
        } else {
            let r = slice[0] == self.bytes[0] && slice[1] == self.bytes[1] && slice[2]
                == self.bytes[2] && slice[3] == self.bytes[3];
            proof {
                if r {
                    assert(slice@ =~= self.bytes@);
                } else {
                    assert(slice@ != self.bytes@);
                }
            }
            r
        }
    }
}

/// The error type for operations on resource forks.
///
/// The fork is handed to this crate as a complete byte buffer, so I/O
/// failures are the caller's concern; [`ResourceError::UnexpectedEof`]
/// covers offsets that point past the end of that buffer.
#[derive(Copy, Clone, Debug, PartialEq, Eq, Structural)]
pub enum ResourceError {
    /// An offset in the fork pointed past the end of the buffer.
    UnexpectedEof,

    /// No resource with the given type/ID (or name) was found in this
    /// resource fork.
    NotFound,

    /// This resource fork's resource map was corrupt and could not be
    /// loaded.
    CorruptResourceMap,

    /// The data for a specific resource was corrupt and could not be
    /// loaded.
    CorruptResourceData,
}

/// Metadata associated with a specific resource.
///
/// All resources have a type and ID and may also have a name.
#[derive(Clone, Debug)]
pub struct ResourceMetadata {
    /// The type of this resource.
    pub resource_type: ResourceType,
    /// The ID of this resource, unique within its type.
    pub id: u16,
    /// The name of this resource, if it has one.
    pub name: Option<String>,
    /// The "attributes" bitfield for this resource.
    pub attributes: u8,
    /// The offset of this resource's data within the fork's data area.
    pub data_offset: u32,
}

impl ResourceMetadata {
    /// Returns the type of this resource.
    pub fn resource_type(&self) -> (r: ResourceType)
        ensures
            r == self.resource_type,
    {
        self.resource_type
    }

    /// Returns the ID of this resource.
    ///
    /// IDs uniquely identify resources _within a specific type._ Resources
    /// of different types may have the same ID without conflict.
    pub fn id(&self) -> (r: u16)
        ensures
            r == self.id,
    {
        self.id
    }

    /// Returns the name of this resource.
    ///
    /// Names, if present, uniquely identify resources _within a specific
    /// type._ Resources of different types may have the same name without
    /// conflict.
    pub fn name(&self) -> (r: Option<&String>)
        ensures
            r is Some <==> self.name is Some,
            r matches Some(n) ==> n@ == self.name.unwrap()@,
    {
        match &self.name {
            Some(n) => Some(n),
            None => None,
        }
    }

    /// Returns the "attributes" bitfield for this resource. Attributes are
    /// cues to the Mac OS Resource Manager, and are generally not needed
    /// for new use cases. They are provided here in the interest of
    /// preserving history.
    pub fn attributes(&self) -> (r: u8)
        ensures
            r == self.attributes,
    {
        self.attributes
    }
}

/// A binding from a resource's type and name to its ID, mirroring the
/// name-keyed index that [`ResourceFork::load_by_name`] consults.
#[derive(Clone, Debug)]
pub struct NameBinding {
    /// The type of the named resource.
    pub resource_type: ResourceType,
    /// The resource's name, decoded from Macintosh-Roman.
    pub name: String,
    /// The resource's ID.
    pub id: u16,
}

/// The ghost image of one resource's metadata, with text as character
/// sequences, used to state what parsing a fork must produce.
pub struct MetaModel {
    /// The four type-identifier bytes.
    pub rtype: Seq<u8>,
    /// The resource ID.
    pub id: u16,
    /// The decoded name, if the resource has one.
    pub name: Option<Seq<char>>,
    /// The attributes bitfield.
    pub attributes: u8,
    /// The offset of the resource's data within the data area.
    pub data_offset: u32,
}

/// The ghost image of one name binding.
pub struct NameModel {
    /// The four type-identifier bytes.
    pub rtype: Seq<u8>,
    /// The decoded name.
    pub name: Seq<char>,
    /// The resource ID the name is bound to.
    pub id: u16,
}

/// Whether a concrete metadata entry realises a ghost image.
pub open spec fn rm_matches(rm: ResourceMetadata, m: MetaModel) -> bool {
    &&& rm.resource_type.bytes@ == m.rtype
    &&& rm.id == m.id
    &&& (rm.name is Some <==> m.name is Some)
    &&& (rm.name is Some ==> rm.name.unwrap()@ == m.name.unwrap())
    &&& rm.attributes == m.attributes
    &&& rm.data_offset == m.data_offset
}

/// Whether a concrete name binding realises a ghost image.
pub open spec fn nb_matches(nb: NameBinding, m: NameModel) -> bool {
    &&& nb.resource_type.bytes@ == m.rtype
    &&& nb.name@ == m.name
    &&& nb.id == m.id
}

/// The position of the first entry with the given type and ID.
pub open spec fn spec_find_rm(entries: Seq<ResourceMetadata>, t: ResourceType, id: u16) -> Option<
    int,
>
    decreases entries.len(),
{
    if entries.len() == 0 {
        None
    } else if entries[0].resource_type.bytes == t.bytes && entries[0].id == id {
        Some(0)
    } else {
        match spec_find_rm(entries.drop_first(), t, id) {
            Some(i) => Some(i + 1),
            None => None,
        }
    }
}

/// The position of the first binding with the given type and name.
pub open spec fn spec_find_nb(names: Seq<NameBinding>, t: ResourceType, name: Seq<char>) -> Option<
    int,
>
    decreases names.len(),
{
    if names.len() == 0 {
        None
    } else if names[0].resource_type.bytes == t.bytes && names[0].name@ == name {
        Some(0)
    } else {
        match spec_find_nb(names.drop_first(), t, name) {
            Some(i) => Some(i + 1),
            None => None,
        }
    }
}

/// What `spec_find_rm` finds is a match, and nothing before it is one.
proof fn lemma_find_rm_sound(entries: Seq<ResourceMetadata>, t: ResourceType, id: u16)
    ensures
        match spec_find_rm(entries, t, id) {
            Some(i) => 0 <= i < entries.len() && entries[i].resource_type.bytes == t.bytes
                && entries[i].id == id && forall|j: int|
                0 <= j < i ==> !(entries[j].resource_type.bytes == t.bytes && entries[j].id == id),
            None => forall|j: int|
                0 <= j < entries.len() ==> !(entries[j].resource_type.bytes == t.bytes
                    && entries[j].id == id),
        },
    decreases entries.len(),
{
    if entries.len() > 0 {
        let tail = entries.drop_first();
        lemma_find_rm_sound(tail, t, id);
        assert(forall|j: int| 0 <= j < tail.len() ==> tail[j] == entries[j + 1]);
        match spec_find_rm(entries, t, id) {
            Some(i) => {
                if i > 0 {
                    assert(spec_find_rm(tail, t, id) == Some(i - 1));
                    assert forall|j: int| 0 <= j < i implies !(entries[j].resource_type.bytes
                        == t.bytes && entries[j].id == id) by {
                        if j > 0 {
                            assert(entries[j] == tail[j - 1]);
                        }
                    }
                }
            },
            None => {
                assert forall|j: int|
                    0 <= j < entries.len() implies !(entries[j].resource_type.bytes == t.bytes
                    && entries[j].id == id) by {
                    if j > 0 {
                        assert(entries[j] == tail[j - 1]);
                    }
                }
            },
        }
    }
}

/// A match at `i` with none before it is what `spec_find_rm` finds.
proof fn lemma_find_rm_complete(
    entries: Seq<ResourceMetadata>,
    t: ResourceType,
    id: u16,
    i: int,
)
    requires
        0 <= i < entries.len(),
        entries[i].resource_type.bytes == t.bytes,
        entries[i].id == id,
        forall|j: int|
            0 <= j < i ==> !(entries[j].resource_type.bytes == t.bytes && entries[j].id == id),
    ensures
        spec_find_rm(entries, t, id) == Some(i),
    decreases entries.len(),
{
    if i > 0 {
        assert(forall|j: int|
            0 <= j < i - 1 ==> entries.drop_first()[j] == entries[j + 1]);
        lemma_find_rm_complete(entries.drop_first(), t, id, i - 1);
    }
}

/// No match anywhere means `spec_find_rm` finds nothing.
proof fn lemma_find_rm_none(entries: Seq<ResourceMetadata>, t: ResourceType, id: u16)
    requires
        forall|j: int|
            0 <= j < entries.len() ==> !(entries[j].resource_type.bytes == t.bytes && entries[j].id
                == id),
    ensures
        spec_find_rm(entries, t, id) is None,
    decreases entries.len(),
{
    if entries.len() > 0 {
        assert(forall|j: int|
            0 <= j < entries.len() - 1 ==> entries.drop_first()[j] == entries[j + 1]);
        lemma_find_rm_none(entries.drop_first(), t, id);
    }
}

/// What `spec_find_nb` finds is a match, and nothing before it is one.
proof fn lemma_find_nb_sound(names: Seq<NameBinding>, t: ResourceType, name: Seq<char>)
    ensures
        match spec_find_nb(names, t, name) {
            Some(i) => 0 <= i < names.len() && names[i].resource_type.bytes == t.bytes
                && names[i].name@ == name && forall|j: int|
                0 <= j < i ==> !(names[j].resource_type.bytes == t.bytes && names[j].name@
                    == name),
            None => forall|j: int|
                0 <= j < names.len() ==> !(names[j].resource_type.bytes == t.bytes
                    && names[j].name@ == name),
        },
    decreases names.len(),
{
    if names.len() > 0 {
        let tail = names.drop_first();
        lemma_find_nb_sound(tail, t, name);
        assert(forall|j: int| 0 <= j < tail.len() ==> tail[j] == names[j + 1]);
        match spec_find_nb(names, t, name) {
            Some(i) => {
                if i > 0 {
                    assert(spec_find_nb(tail, t, name) == Some(i - 1));
                    assert forall|j: int| 0 <= j < i implies !(names[j].resource_type.bytes
                        == t.bytes && names[j].name@ == name) by {
                        if j > 0 {
                            assert(names[j] == tail[j - 1]);
                        }
                    }
                }
            },
            None => {
                assert forall|j: int|
                    0 <= j < names.len() implies !(names[j].resource_type.bytes == t.bytes
                    && names[j].name@ == name) by {
                    if j > 0 {
                        assert(names[j] == tail[j - 1]);
                    }
                }
            },
        }
    }
}

/// A match at `i` with none before it is what `spec_find_nb` finds.
proof fn lemma_find_nb_complete(names: Seq<NameBinding>, t: ResourceType, name: Seq<char>, i: int)
    requires
        0 <= i < names.len(),
        names[i].resource_type.bytes == t.bytes,
        names[i].name@ == name,
        forall|j: int|
            0 <= j < i ==> !(names[j].resource_type.bytes == t.bytes && names[j].name@ == name),
    ensures
        spec_find_nb(names, t, name) == Some(i),
    decreases names.len(),
{
    if i > 0 {
        assert(forall|j: int| 0 <= j < i - 1 ==> names.drop_first()[j] == names[j + 1]);
        lemma_find_nb_complete(names.drop_first(), t, name, i - 1);
    }
}

/// No match anywhere means `spec_find_nb` finds nothing.
proof fn lemma_find_nb_none(names: Seq<NameBinding>, t: ResourceType, name: Seq<char>)
    requires
        forall|j: int|
            0 <= j < names.len() ==> !(names[j].resource_type.bytes == t.bytes && names[j].name@
                == name),
    ensures
        spec_find_nb(names, t, name) is None,
    decreases names.len(),
{
    if names.len() > 0 {
        assert(forall|j: int|
            0 <= j < names.len() - 1 ==> names.drop_first()[j] == names[j + 1]);
        lemma_find_nb_none(names.drop_first(), t, name);
    }
}

/// The position of the first ghost entry with the given type bytes and ID.
pub open spec fn spec_find_entry_model(entries: Seq<MetaModel>, rtype: Seq<u8>, id: u16) -> Option<
    int,
>
    decreases entries.len(),
{
    if entries.len() == 0 {
        None
    } else if entries[0].rtype == rtype && entries[0].id == id {
        Some(0)
    } else {
        match spec_find_entry_model(entries.drop_first(), rtype, id) {
            Some(i) => Some(i + 1),
            None => None,
        }
    }
}

/// Inserting a ghost entry: an existing entry with the same key is
/// replaced in place, otherwise the entry is appended. This mirrors how a
/// map keyed by type and ID absorbs a duplicate: the later record wins.
pub open spec fn spec_upsert_model(entries: Seq<MetaModel>, m: MetaModel) -> Seq<MetaModel> {
    match spec_find_entry_model(entries, m.rtype, m.id) {
        Some(i) => entries.update(i, m),
        None => entries.push(m),
    }
}

/// The position of the first ghost binding with the given type bytes and
/// name.
pub open spec fn spec_find_name_model(names: Seq<NameModel>, rtype: Seq<u8>, name: Seq<char>) -> Option<
    int,
>
    decreases names.len(),
{
    if names.len() == 0 {
        None
    } else if names[0].rtype == rtype && names[0].name == name {
        Some(0)
    } else {
        match spec_find_name_model(names.drop_first(), rtype, name) {
            Some(i) => Some(i + 1),
            None => None,
        }
    }
}

/// Inserting a ghost binding, the later record winning as for entries.
pub open spec fn spec_upsert_name_model(names: Seq<NameModel>, m: NameModel) -> Seq<NameModel> {
    match spec_find_name_model(names, m.rtype, m.name) {
        Some(i) => names.update(i, m),
        None => names.push(m),
    }
}

/// Two identifiers hold the same bytes exactly when their byte views are
/// equal.
proof fn lemma_rtype_eq(a: ResourceType, b: ResourceType)
    ensures
        (a.bytes == b.bytes) <==> (a.bytes@ == b.bytes@),
{
    if a.bytes@ == b.bytes@ {
        assert(a.bytes =~= b.bytes);
    }
}

/// Searching the concrete entries agrees with searching their ghost
/// images.
proof fn lemma_find_rm_transfer(
    entries: Seq<ResourceMetadata>,
    models: Seq<MetaModel>,
    t: ResourceType,
    id: u16,
)
    requires
        entries.len() == models.len(),
        forall|k: int| 0 <= k < entries.len() ==> rm_matches(#[trigger] entries[k], models[k]),
    ensures
        spec_find_rm(entries, t, id) == spec_find_entry_model(models, t.bytes@, id),
    decreases entries.len(),
{
    if entries.len() > 0 {
        assert(rm_matches(entries[0], models[0]));
        lemma_rtype_eq(entries[0].resource_type, t);
        assert(forall|k: int|
            0 <= k < entries.len() - 1 ==> entries.drop_first()[k] == entries[k + 1]);
        assert(forall|k: int|
            0 <= k < models.len() - 1 ==> models.drop_first()[k] == models[k + 1]);
        assert(forall|k: int|
            0 <= k < entries.len() - 1 ==> rm_matches(
                #[trigger] entries.drop_first()[k],
                models.drop_first()[k],
            ));
        lemma_find_rm_transfer(entries.drop_first(), models.drop_first(), t, id);
    }
}

/// Searching the concrete bindings agrees with searching their ghost
/// images.
proof fn lemma_find_nb_transfer(
    names: Seq<NameBinding>,
    models: Seq<NameModel>,
    t: ResourceType,
    name: Seq<char>,
)
    requires
        names.len() == models.len(),
        forall|k: int| 0 <= k < names.len() ==> nb_matches(#[trigger] names[k], models[k]),
    ensures
        spec_find_nb(names, t, name) == spec_find_name_model(models, t.bytes@, name),
    decreases names.len(),
{
    if names.len() > 0 {
        assert(nb_matches(names[0], models[0]));
        lemma_rtype_eq(names[0].resource_type, t);
        assert(forall|k: int| 0 <= k < names.len() - 1 ==> names.drop_first()[k] == names[k + 1]);
        assert(forall|k: int|
            0 <= k < models.len() - 1 ==> models.drop_first()[k] == models[k + 1]);
        assert(forall|k: int|
            0 <= k < names.len() - 1 ==> nb_matches(
                #[trigger] names.drop_first()[k],
                models.drop_first()[k],
            ));
        lemma_find_nb_transfer(names.drop_first(), models.drop_first(), t, name);
    }
}

/// Upserting a concrete entry and its ghost image keeps them pointwise
/// matched.
proof fn lemma_upsert_match(
    entries: Seq<ResourceMetadata>,
    models: Seq<MetaModel>,
    e: ResourceMetadata,
    m: MetaModel,
    en: Seq<ResourceMetadata>,
    mn: Seq<MetaModel>,
)
    requires
        entries.len() == models.len(),
        forall|k: int| 0 <= k < entries.len() ==> rm_matches(#[trigger] entries[k], models[k]),
        rm_matches(e, m),
        en == (match spec_find_rm(entries, e.resource_type, e.id) {
            Some(i) => entries.update(i, e),
            None => entries.push(e),
        }),
        mn == spec_upsert_model(models, m),
    ensures
        en.len() == mn.len(),
        forall|k: int| 0 <= k < en.len() ==> rm_matches(#[trigger] en[k], mn[k]),
{
    lemma_find_rm_transfer(entries, models, e.resource_type, e.id);
    lemma_find_rm_sound(entries, e.resource_type, e.id);
    assert forall|k: int| 0 <= k < en.len() implies rm_matches(#[trigger] en[k], mn[k]) by {
        match spec_find_rm(entries, e.resource_type, e.id) {
            Some(i) => {
                if k != i {
                    assert(en[k] == entries[k]);
                    assert(mn[k] == models[k]);
                }
            },
            None => {
                if k < entries.len() {
                    assert(en[k] == entries[k]);
                    assert(mn[k] == models[k]);
                }
            },
        }
    }
}

/// Upserting a concrete binding and its ghost image keeps them pointwise
/// matched.
proof fn lemma_upsert_name_match(
    names: Seq<NameBinding>,
    models: Seq<NameModel>,
    nb: NameBinding,
    m: NameModel,
    nn: Seq<NameBinding>,
    mn: Seq<NameModel>,
)
    requires
        names.len() == models.len(),
        forall|k: int| 0 <= k < names.len() ==> nb_matches(#[trigger] names[k], models[k]),
        nb_matches(nb, m),
        nn == (match spec_find_nb(names, nb.resource_type, nb.name@) {
            Some(i) => names.update(i, nb),
            None => names.push(nb),
        }),
        mn == spec_upsert_name_model(models, m),
    ensures
        nn.len() == mn.len(),
        forall|k: int| 0 <= k < nn.len() ==> nb_matches(#[trigger] nn[k], mn[k]),
{
    lemma_find_nb_transfer(names, models, nb.resource_type, nb.name@);
    lemma_find_nb_sound(names, nb.resource_type, nb.name@);
    assert forall|k: int| 0 <= k < nn.len() implies nb_matches(#[trigger] nn[k], mn[k]) by {
        match spec_find_nb(names, nb.resource_type, nb.name@) {
            Some(i) => {
                if k != i {
                    assert(nn[k] == names[k]);
                    assert(mn[k] == models[k]);
                }
            },
            None => {
                if k < names.len() {
                    assert(nn[k] == names[k]);
                    assert(mn[k] == models[k]);
                }
            },
        }
    }
}

/// Replaces the entry with this entry's key, or appends it.
fn upsert_entry(entries: &mut Vec<ResourceMetadata>, e: ResourceMetadata)
    ensures
        ({
            match spec_find_rm(old(entries)@, e.resource_type, e.id) {
                Some(i) => final(entries)@ == old(entries)@.update(i, e),
                None => final(entries)@ == old(entries)@.push(e),
            }
        }),
{
    let ghost e0 = e;
    let mut i: usize = 0;
    while i < entries.len()
        invariant
            i <= entries@.len(),
            entries@ == old(entries)@,
            e == e0,
            forall|j: int|
                0 <= j < i ==> !(entries@[j].resource_type.bytes == e0.resource_type.bytes
                    && entries@[j].id == e0.id),
        decreases entries@.len() - i,
    {
        if entries[i].resource_type == e.resource_type && entries[i].id == e.id {
            proof {
                lemma_rtype_eq(entries@[i as int].resource_type, e.resource_type);
                assert(entries@[i as int].resource_type.bytes == e.resource_type.bytes);
                lemma_find_rm_complete(entries@, e.resource_type, e.id, i as int);
            }
            entries[i] = e;
            return ;
        }
        proof {
            lemma_rtype_eq(entries@[i as int].resource_type, e.resource_type);
        }
        i = i + 1;
    }
    proof {
        lemma_find_rm_none(entries@, e.resource_type, e.id);
    }
    entries.push(e);
}

/// Replaces the binding with this binding's key, or appends it.
fn upsert_name(names: &mut Vec<NameBinding>, nb: NameBinding)
    ensures
        ({
            match spec_find_nb(old(names)@, nb.resource_type, nb.name@) {
                Some(i) => final(names)@ == old(names)@.update(i, nb),
                None => final(names)@ == old(names)@.push(nb),
            }
        }),
{
    let ghost nb0 = nb;
    let mut i: usize = 0;
    while i < names.len()
        invariant
            i <= names@.len(),
            names@ == old(names)@,
            nb == nb0,
            forall|j: int|
                0 <= j < i ==> !(names@[j].resource_type.bytes == nb0.resource_type.bytes
                    && names@[j].name@ == nb0.name@),
        decreases names@.len() - i,
    {
        let type_matches = names[i].resource_type == nb.resource_type;
        let name_matches = names[i].name == nb.name;
        proof {
            lemma_rtype_eq(names@[i as int].resource_type, nb.resource_type);
        }
        if type_matches && name_matches {
            proof {
                lemma_find_nb_complete(names@, nb.resource_type, nb.name@, i as int);
            }
            names[i] = nb;
            return ;
        }
        i = i + 1;
    }
    proof {
        lemma_find_nb_none(names@, nb.resource_type, nb.name@);
    }
    names.push(nb);
}

/// Walks one type's reference list, upserting a ghost entry (and, for
/// named resources, a ghost binding) per reference. Fails where a
/// reference or name record would reach outside the map.
pub open spec fn spec_parse_refs(
    map: Seq<u8>,
    nlo: int,
    rtype: Seq<u8>,
    ref_base: int,
    r: int,
    count: int,
    entries: Seq<MetaModel>,
    names: Seq<NameModel>,
) -> Result<(Seq<MetaModel>, Seq<NameModel>), ResourceError>
    decreases count - r,
{
    if r >= count {
        Ok((entries, names))
    } else {
        let off = ref_base + 12 * r;
        if off + 12 > map.len() {
            Err(ResourceError::CorruptResourceMap)
        } else {
            let id = spec_u16_of(map, off);
            let name_off = spec_u16_of(map, off + 2);
            let attributes = map[off + 4];
            let data_offset = spec_u32_be(0, map[off + 5], map[off + 6], map[off + 7]);
            if name_off == NO_NAME {
                let m = MetaModel { rtype, id, name: None, attributes, data_offset };
                spec_parse_refs(
                    map,
                    nlo,
                    rtype,
                    ref_base,
                    r + 1,
                    count,
                    spec_upsert_model(entries, m),
                    names,
                )
            } else {
                let nstart = nlo + name_off;
                if nstart + 1 > map.len() {
                    Err(ResourceError::CorruptResourceMap)
                } else {
                    let nlen = map[nstart];
                    if nstart + 1 + nlen > map.len() {
                        Err(ResourceError::CorruptResourceMap)
                    } else {
                        let name = mac_roman_decoding(map.subrange(nstart + 1, nstart + 1 + nlen));
                        let m = MetaModel { rtype, id, name: Some(name), attributes, data_offset };
                        spec_parse_refs(
                            map,
                            nlo,
                            rtype,
                            ref_base,
                            r + 1,
                            count,
                            spec_upsert_model(entries, m),
                            spec_upsert_name_model(names, NameModel { rtype, name, id }),
                        )
                    }
                }
            }
        }
    }
}

/// Walks the type list, folding every type's reference list into the
/// ghost entries and bindings.
pub open spec fn spec_parse_types(
    map: Seq<u8>,
    tlo: int,
    nlo: int,
    t: int,
    type_count: int,
    entries: Seq<MetaModel>,
    names: Seq<NameModel>,
) -> Result<(Seq<MetaModel>, Seq<NameModel>), ResourceError>
    decreases type_count - t,
{
    if t >= type_count {
        Ok((entries, names))
    } else {
        let toff = tlo + 2 + 8 * t;
        if toff + 8 > map.len() {
            Err(ResourceError::CorruptResourceMap)
        } else {
            let rtype = map.subrange(toff, toff + 4);
            let count = spec_u16_of(map, toff + 4) + 1;
            let ref_off = spec_u16_of(map, toff + 6);
            match spec_parse_refs(map, nlo, rtype, tlo + ref_off, 0, count, entries, names) {
                Ok(pair) => spec_parse_types(map, tlo, nlo, t + 1, type_count, pair.0, pair.1),
                Err(e) => Err(e),
            }
        }
    }
}

/// What loading a whole resource fork from its raw bytes must produce:
/// the data area's offset and length, the fork attributes, and the ghost
/// entries and name bindings of its resource map, or the error that stops
/// the parse.
pub open spec fn spec_parse_fork(source: Seq<u8>) -> Result<
    (u32, u32, u16, Seq<MetaModel>, Seq<NameModel>),
    ResourceError,
> {
    if source.len() < 16 {
        Err(ResourceError::UnexpectedEof)
    } else {
        let data_offset = spec_u32_of(source, 0);
        let map_offset = spec_u32_of(source, 4);
        let data_len = spec_u32_of(source, 8);
        let map_len = spec_u32_of(source, 12);
        if map_len < 30 {
            Err(ResourceError::CorruptResourceMap)
        } else if map_offset + map_len > source.len() {
            Err(ResourceError::UnexpectedEof)
        } else {
            let map = source.subrange(map_offset as int, map_offset + map_len);
            let attributes = spec_u16_of(map, 22);
            let tlo = spec_u16_of(map, 24);
            let nlo = spec_u16_of(map, 26);
            let type_count = spec_u16_of(map, 28) + 1;
            if map_len < 30 + 8 * type_count {
                Err(ResourceError::CorruptResourceMap)
            } else {
                match spec_parse_types(
                    map,
                    tlo as int,
                    nlo as int,
                    0,
                    type_count,
                    Seq::empty(),
                    Seq::empty(),
                ) {
                    Ok(pair) => Ok((data_offset, data_len, attributes, pair.0, pair.1)),
                    Err(e) => Err(e),
                }
            }
        }
    }
}

/// Walks one type's reference list in the map, upserting a metadata entry
/// (and a name binding for named resources) per reference, together with
/// their ghost images.
#[verifier::loop_isolation(false)]
#[verifier::rlimit(100)]
fn parse_type_refs(
    map: &Vec<u8>,
    nlo: usize,
    rtype: ResourceType,
    ref_base: usize,
    count: usize,
    entries: &mut Vec<ResourceMetadata>,
    names: &mut Vec<NameBinding>,
    Ghost(g_rtype): Ghost<Seq<u8>>,
    Ghost(ent0): Ghost<Seq<MetaModel>>,
    Ghost(nam0): Ghost<Seq<NameModel>>,
) -> (r: (Result<(), ResourceError>, Ghost<Seq<MetaModel>>, Ghost<Seq<NameModel>>))
    requires
        rtype.bytes@ == g_rtype,
        nlo <= 0xffff,
        ref_base <= 0x1fffe,
        count <= 0x10000,
        old(entries)@.len() == ent0.len(),
        forall|k: int|
            0 <= k < old(entries)@.len() ==> rm_matches(#[trigger] old(entries)@[k], ent0[k]),
        old(names)@.len() == nam0.len(),
        forall|k: int|
            0 <= k < old(names)@.len() ==> nb_matches(#[trigger] old(names)@[k], nam0[k]),
    ensures
        ({
            let outcome = spec_parse_refs(
                map@,
                nlo as int,
                g_rtype,
                ref_base as int,
                0,
                count as int,
                ent0,
                nam0,
            );
            &&& (r.0 is Ok <==> outcome is Ok)
            &&& (r.0 matches Err(e) ==> outcome == Err::<
                (Seq<MetaModel>, Seq<NameModel>),
                ResourceError,
            >(e))
            &&& (r.0 is Ok ==> outcome == Ok::<(Seq<MetaModel>, Seq<NameModel>), ResourceError>(
                (r.1@, r.2@),
            ))
            &&& final(entries)@.len() == r.1@.len()
            &&& (forall|k: int|
                0 <= k < final(entries)@.len() ==> rm_matches(
                    #[trigger] final(entries)@[k],
                    r.1@[k],
                ))
            &&& final(names)@.len() == r.2@.len()
            &&& (forall|k: int|
                0 <= k < final(names)@.len() ==> nb_matches(#[trigger] final(names)@[k], r.2@[k]))
        }),
{
    let ghost mut g_entries: Seq<MetaModel> = ent0;
    let ghost mut g_names: Seq<NameModel> = nam0;
    let mut rr: usize = 0;
    while rr < count
        invariant
            rr <= count,
            entries@.len() == g_entries.len(),
            forall|k: int|
                0 <= k < entries@.len() ==> rm_matches(#[trigger] entries@[k], g_entries[k]),
            names@.len() == g_names.len(),
            forall|k: int|
                0 <= k < names@.len() ==> nb_matches(#[trigger] names@[k], g_names[k]),
            spec_parse_refs(
                map@,
                nlo as int,
                g_rtype,
                ref_base as int,
                0,
                count as int,
                ent0,
                nam0,
            ) == spec_parse_refs(
                map@,
                nlo as int,
                g_rtype,
                ref_base as int,
                rr as int,
                count as int,
                g_entries,
                g_names,
            ),
        decreases count - rr,
    {
        let roff = ref_base + 12 * rr;
        if roff > map.len() || 12 > map.len() - roff {
            return (Err(ResourceError::CorruptResourceMap), Ghost(g_entries), Ghost(g_names));
        }
        let id = u16_be(map[roff], map[roff + 1]);
        let name_off = u16_be(map[roff + 2], map[roff + 3]);
        let rattrs = map[roff + 4];
        let rdata_off = u32_be(0, map[roff + 5], map[roff + 6], map[roff + 7]);
        proof {
            assert(id == spec_u16_of(map@, roff as int));
            assert(name_off == spec_u16_of(map@, roff as int + 2));
            assert(rdata_off == spec_u32_be(
                0,
                map@[roff as int + 5],
                map@[roff as int + 6],
                map@[roff as int + 7],
            ));
        }
        if name_off == NO_NAME {
            let e = ResourceMetadata {
                resource_type: rtype,
                id,
                name: None,
                attributes: rattrs,
                data_offset: rdata_off,
            };
            let ghost m = MetaModel {
                rtype: g_rtype,
                id,
                name: None,
                attributes: rattrs,
                data_offset: rdata_off,
            };
            let ghost ge = e;
            let ghost ent_before = entries@;
            let ghost mod_before = g_entries;
            upsert_entry(entries, e);
            proof {
                assert(rm_matches(ge, m));
                g_entries = spec_upsert_model(mod_before, m);
                lemma_upsert_match(ent_before, mod_before, ge, m, entries@, g_entries);
            }
        } else {
            let nstart = nlo + name_off as usize;
            if nstart >= map.len() {
                return (Err(ResourceError::CorruptResourceMap), Ghost(g_entries), Ghost(g_names));
            }
            let nlen = map[nstart] as usize;
            if nlen > map.len() - nstart - 1 {
                return (Err(ResourceError::CorruptResourceMap), Ghost(g_entries), Ghost(g_names));
            }
            let name = decode_mac_roman(&map.as_slice()[nstart + 1..nstart + 1 + nlen]);
            let ghost gname = mac_roman_decoding(map@.subrange(nstart + 1, nstart + 1 + nlen));
            proof {
                assert(map@.subrange(nstart + 1, nstart + 1 + nlen) =~= map@.subrange(
                    (nstart + 1) as int,
                    (nstart + 1 + nlen) as int,
                ));
            }
            let e = ResourceMetadata {
                resource_type: rtype,
                id,
                name: Some(name.clone()),
                attributes: rattrs,
                data_offset: rdata_off,
            };
            let nb = NameBinding { resource_type: rtype, name, id };
            let ghost m = MetaModel {
                rtype: g_rtype,
                id,
                name: Some(gname),
                attributes: rattrs,
                data_offset: rdata_off,
            };
            let ghost nm = NameModel { rtype: g_rtype, name: gname, id };
            let ghost ge = e;
            let ghost gnb = nb;
            let ghost ent_before = entries@;
            let ghost mod_before = g_entries;
            let ghost nam_before = names@;
            let ghost nmod_before = g_names;
            upsert_entry(entries, e);
            upsert_name(names, nb);
            proof {
                assert(rm_matches(ge, m));
                assert(nb_matches(gnb, nm));
                g_entries = spec_upsert_model(mod_before, m);
                g_names = spec_upsert_name_model(nmod_before, nm);
                lemma_upsert_match(ent_before, mod_before, ge, m, entries@, g_entries);
                lemma_upsert_name_match(nam_before, nmod_before, gnb, nm, names@, g_names);
            }
        }
        rr = rr + 1;
    }
    (Ok(()), Ghost(g_entries), Ghost(g_names))
}

/// Walks the whole type list of the map, building the metadata entries
/// and name bindings together with their ghost images.
#[verifier::loop_isolation(false)]
#[verifier::rlimit(100)]
fn parse_map(map: &Vec<u8>, tlo: usize, nlo: usize, type_count: usize) -> (r: (
    Result<(Vec<ResourceMetadata>, Vec<NameBinding>), ResourceError>,
    Ghost<Seq<MetaModel>>,
    Ghost<Seq<NameModel>>,
))
    requires
        tlo <= 0xffff,
        nlo <= 0xffff,
        type_count <= 0x10000,
    ensures
        ({
            let outcome = spec_parse_types(
                map@,
                tlo as int,
                nlo as int,
                0,
                type_count as int,
                Seq::empty(),
                Seq::empty(),
            );
            &&& (r.0 is Ok <==> outcome is Ok)
            &&& (r.0 matches Err(e) ==> outcome == Err::<
                (Seq<MetaModel>, Seq<NameModel>),
                ResourceError,
            >(e))
            &&& (r.0 matches Ok(pair) ==> ({
                &&& outcome == Ok::<(Seq<MetaModel>, Seq<NameModel>), ResourceError>(
                    (r.1@, r.2@),
                )
                &&& pair.0@.len() == r.1@.len()
                &&& (forall|k: int|
                    0 <= k < pair.0@.len() ==> rm_matches(#[trigger] pair.0@[k], r.1@[k]))
                &&& pair.1@.len() == r.2@.len()
                &&& (forall|k: int|
                    0 <= k < pair.1@.len() ==> nb_matches(#[trigger] pair.1@[k], r.2@[k]))
            }))
        }),
{
    let mut entries: Vec<ResourceMetadata> = Vec::new();
    let mut names: Vec<NameBinding> = Vec::new();
    let ghost mut g_entries: Seq<MetaModel> = Seq::empty();
    let ghost mut g_names: Seq<NameModel> = Seq::empty();
    let mut t: usize = 0;
    while t < type_count
        invariant
            t <= type_count,
            entries@.len() == g_entries.len(),
            forall|k: int|
                0 <= k < entries@.len() ==> rm_matches(#[trigger] entries@[k], g_entries[k]),
            names@.len() == g_names.len(),
            forall|k: int|
                0 <= k < names@.len() ==> nb_matches(#[trigger] names@[k], g_names[k]),
            spec_parse_types(
                map@,
                tlo as int,
                nlo as int,
                0,
                type_count as int,
                Seq::empty(),
                Seq::empty(),
            ) == spec_parse_types(
                map@,
                tlo as int,
                nlo as int,
                t as int,
                type_count as int,
                g_entries,
                g_names,
            ),
        decreases type_count - t,
    {
        let toff = tlo + 2 + 8 * t;
        if toff > map.len() || 8 > map.len() - toff {
            return (Err(ResourceError::CorruptResourceMap), Ghost(g_entries), Ghost(g_names));
        }
        let rtype = ResourceType { bytes: [map[toff], map[toff + 1], map[toff + 2], map[toff + 3]] };
        proof {
            assert(rtype.bytes@ =~= map@.subrange(toff as int, toff as int + 4));
        }
        let count = u16_be(map[toff + 4], map[toff + 5]) as usize + 1;
        let ref_off = u16_be(map[toff + 6], map[toff + 7]) as usize;
        let ref_base = tlo + ref_off;
        let ghost g_rtype = map@.subrange(toff as int, toff as int + 4);
        let parsed = parse_type_refs(
            map,
            nlo,
            rtype,
            ref_base,
            count,
            &mut entries,
            &mut names,
            Ghost(g_rtype),
            Ghost(g_entries),
            Ghost(g_names),
        );
        match parsed.0 {
            Ok(_) => {
                proof {
                    g_entries = parsed.1@;
                    g_names = parsed.2@;
                }
            },
            Err(e) => {
                return (Err(e), Ghost(g_entries), Ghost(g_names));
            },
        }
        t = t + 1;
    }
    proof {
        assert(spec_parse_types(
            map@,
            tlo as int,
            nlo as int,
            type_count as int,
            type_count as int,
            g_entries,
            g_names,
        ) == Ok::<_, ResourceError>((g_entries, g_names)));
    }
    ((Ok((entries, names))), Ghost(g_entries), Ghost(g_names))
}

/// Provides access to resources stored in the resource fork of a
/// "classic" Mac file, handed over as a complete byte buffer.
pub struct ResourceFork {
    /// The raw fork bytes; resource data is read from them on demand.
    pub source: Vec<u8>,
    /// The offset of the data area within the fork.
    pub data_offset: u32,
    /// The length of the data area.
    pub data_len: u32,
    /// The fork's attributes bitfield.
    pub attributes: u16,
    /// The resources of the map, keyed by type and ID; a later map record
    /// with the same key replaces an earlier one.
    pub entries: Vec<ResourceMetadata>,
    /// The name index of the map, keyed by type and name.
    pub names: Vec<NameBinding>,
}

/// Whether a loaded fork realises what [`spec_parse_fork`] prescribes for
/// its source bytes.
pub open spec fn fork_matches(f: ResourceFork, source: Seq<u8>) -> bool {
    &&& spec_parse_fork(source) matches Ok(model) && ({
        &&& f.source@ == source
        &&& f.data_offset == model.0
        &&& f.data_len == model.1
        &&& f.attributes == model.2
        &&& f.entries@.len() == model.3.len()
        &&& forall|k: int|
            0 <= k < f.entries@.len() ==> rm_matches(#[trigger] f.entries@[k], model.3[k])
        &&& f.names@.len() == model.4.len()
        &&& forall|k: int|
            0 <= k < f.names@.len() ==> nb_matches(#[trigger] f.names@[k], model.4[k])
    })
}

impl ResourceFork {
    /// Loads the resource map from the given fork bytes.
    ///
    /// # Errors
    ///
    /// [`ResourceError::UnexpectedEof`] when the fork header or the map
    /// reaches past the end of the buffer, and
    /// [`ResourceError::CorruptResourceMap`] when the map's own lengths
    /// and offsets are inconsistent.
    #[verifier::loop_isolation(false)]
    #[verifier::rlimit(100)]
    pub fn new(source: Vec<u8>) -> (r: Result<ResourceFork, ResourceError>)
        ensures
            (r is Ok <==> spec_parse_fork(source@) is Ok),
            r matches Ok(fork) ==> fork_matches(fork, source@),
            r matches Err(e) ==> spec_parse_fork(source@) == Err::<
                (u32, u32, u16, Seq<MetaModel>, Seq<NameModel>),
                ResourceError,
            >(e),
    {
        if source.len() < 16 {
            return Err(ResourceError::UnexpectedEof);
        }
        let data_offset = u32_be(source[0], source[1], source[2], source[3]);
        let map_offset = u32_be(source[4], source[5], source[6], source[7]);
        let data_len = u32_be(source[8], source[9], source[10], source[11]);
        let map_len = u32_be(source[12], source[13], source[14], source[15]);
        if map_len < 30 {
            return Err(ResourceError::CorruptResourceMap);
        }
        if map_offset as u64 + map_len as u64 > source.len() as u64 {
            return Err(ResourceError::UnexpectedEof);
        }
        let map_start = map_offset as usize;
        let map_size = map_len as usize;
        let mut map: Vec<u8> = Vec::new();
        map.extend_from_slice(&source.as_slice()[map_start..map_start + map_size]);
        proof {
            assert(map@ =~= source@.subrange(map_offset as int, map_offset + map_len));
        }
        let attributes = u16_be(map[22], map[23]);
        let tlo = u16_be(map[24], map[25]) as usize;
        let nlo = u16_be(map[26], map[27]) as usize;
        let type_count = u16_be(map[28], map[29]) as usize + 1;
        if (map_len as u64) < 30 + 8 * (type_count as u64) {
            return Err(ResourceError::CorruptResourceMap);
        }
        proof {
            assert(spec_parse_fork(source@) == (match spec_parse_types(
                map@,
                tlo as int,
                nlo as int,
                0,
                type_count as int,
                Seq::<MetaModel>::empty(),
                Seq::<NameModel>::empty(),
            ) {
                Ok(pair) => Ok::<_, ResourceError>(
                    (data_offset, data_len, attributes, pair.0, pair.1),
                ),
                Err(e) => Err::<(u32, u32, u16, Seq<MetaModel>, Seq<NameModel>), _>(e),
            }));
        }
        let parsed = parse_map(&map, tlo, nlo, type_count);
        match parsed.0 {
            Ok(pair) => Ok(
                ResourceFork {
                    source,
                    data_offset,
                    data_len,
                    attributes,
                    entries: pair.0,
                    names: pair.1,
                },
            ),
            Err(e) => Err(e),
        }
    }

    /// Returns the metadata of all of the resources contained in this
    /// resource fork, in the order the map lists them (with a duplicate
    /// type/ID key collapsed onto the position of its first occurrence).
    pub fn resources(&self) -> (r: &Vec<ResourceMetadata>)
        ensures
            r@ == self.entries@,
    {
        &self.entries
    }

    /// Returns the "attributes" bitfield for this resource fork.
    /// Attributes are cues to the Mac OS Resource Manager, and are
    /// generally not needed for new use cases. They are provided here in
    /// the interest of preserving history.
    pub fn attributes(&self) -> (r: u16)
        ensures
            r == self.attributes,
    {
        self.attributes
    }

    /// Looks up the entry with the given type and ID.
    fn find_entry(&self, resource_type: &ResourceType, id: u16) -> (r: Option<usize>)
        ensures
            r matches Some(i) ==> i < self.entries@.len() && spec_find_rm(
                self.entries@,
                *resource_type,
                id,
            ) == Some(i as int),
            r is None ==> spec_find_rm(self.entries@, *resource_type, id) is None,
    {
        let mut i: usize = 0;
        while i < self.entries.len()
            invariant
                i <= self.entries@.len(),
                forall|j: int|
                    0 <= j < i ==> !(self.entries@[j].resource_type.bytes == resource_type.bytes
                        && self.entries@[j].id == id),
            decreases self.entries@.len() - i,
        {
            if self.entries[i].resource_type == *resource_type && self.entries[i].id == id {
                proof {
                    lemma_rtype_eq(self.entries@[i as int].resource_type, *resource_type);
                    lemma_find_rm_complete(self.entries@, *resource_type, id, i as int);
                }
                return Some(i);
            }
            proof {
                lemma_rtype_eq(self.entries@[i as int].resource_type, *resource_type);
            }
            i = i + 1;
        }
        proof {
            lemma_find_rm_none(self.entries@, *resource_type, id);
        }
        None
    }

    /// Loads data and metadata for the resource with the given type and
    /// ID. The provided `dest` is resized to the size of the loaded
    /// resource, and resource data is copied into `dest`.
    ///
    /// Resources are uniquely identified by their type and ID (or name,
    /// if present; see [`ResourceFork::load_by_name`]). Multiple resources
    /// may have the same ID as long as they are not of the same type.
    ///
    /// # Errors
    ///
    /// This method returns an error if no resource could be found for the
    /// given type/ID, if the resource data appears to be corrupt, or if
    /// its offsets point past the end of the fork; `dest` is untouched in
    /// every error case.
    pub fn load_by_id(&self, resource_type: ResourceType, id: u16, dest: &mut Vec<u8>) -> (r:
        Result<&ResourceMetadata, ResourceError>)
        ensures
            ({
                let outcome = spec_load(self, resource_type, id, old(dest)@);
                &&& final(dest)@ == outcome.0
                &&& (outcome.1 matches Ok(i) ==> (r matches Ok(m) && *m == self.entries@[i]))
                &&& (outcome.1 matches Err(e) ==> r == Err::<&ResourceMetadata, ResourceError>(e))
            }),
    {
        let found = match self.find_entry(&resource_type, id) {
            Some(i) => i,
            None => {
                return Err(ResourceError::NotFound);
            },
        };
        let entry = &self.entries[found];
        if self.data_len < 4 || entry.data_offset > self.data_len - 4 {
            return Err(ResourceError::CorruptResourceData);
        }
        let pos64 = self.data_offset as u64 + entry.data_offset as u64;
        if pos64 + 4 > self.source.len() as u64 {
            return Err(ResourceError::UnexpectedEof);
        }
        let pos = pos64 as usize;
        let resource_len = u32_be(
            self.source[pos],
            self.source[pos + 1],
            self.source[pos + 2],
            self.source[pos + 3],
        );
        if (self.data_len as u64) < entry.data_offset as u64 + 4 + resource_len as u64 {
            return Err(ResourceError::CorruptResourceData);
        }
        if pos64 + 4 + resource_len as u64 > self.source.len() as u64 {
            return Err(ResourceError::UnexpectedEof);
        }
        let data_start = pos + 4;
        let data_end = data_start + resource_len as usize;
        dest.clear();
        dest.extend_from_slice(&self.source.as_slice()[data_start..data_end]);
        proof {
            assert(dest@ =~= self.source@.subrange(
                self.data_offset + self.entries@[found as int].data_offset + 4,
                self.data_offset + self.entries@[found as int].data_offset + 4
                    + spec_u32_of(
                    self.source@,
                    self.data_offset + self.entries@[found as int].data_offset,
                ),
            ));
        }
        Ok(entry)
    }

    /// Loads data and metadata for the resource with the given type and
    /// name. The provided `dest` is resized to the size of the loaded
    /// resource, and resource data is copied into `dest`.
    ///
    /// Resources are uniquely identified by their type and name (or ID;
    /// see [`ResourceFork::load_by_id`]). Resources may or may not have a
    /// name. If a resource does not have a name, it can only be loaded by
    /// ID. Multiple resources may have the same non-empty name as long as
    /// they are not of the same type.
    ///
    /// # Errors
    ///
    /// Looks up the binding with the given type and name.
    fn find_name(&self, resource_type: &ResourceType, name: &String) -> (r: Option<usize>)
        ensures
            r matches Some(j) ==> j < self.names@.len() && spec_find_nb(
                self.names@,
                *resource_type,
                name@,
            ) == Some(j as int),
            r is None ==> spec_find_nb(self.names@, *resource_type, name@) is None,
    {
        let mut j: usize = 0;
        while j < self.names.len()
            invariant
                j <= self.names@.len(),
                forall|k: int|
                    0 <= k < j ==> !(self.names@[k].resource_type.bytes == resource_type.bytes
                        && self.names@[k].name@ == name@),
            decreases self.names@.len() - j,
        {
            let type_matches = self.names[j].resource_type == *resource_type;
            let name_matches = self.names[j].name == *name;
            proof {
                lemma_rtype_eq(self.names@[j as int].resource_type, *resource_type);
            }
            if type_matches && name_matches {
                proof {
                    lemma_find_nb_complete(self.names@, *resource_type, name@, j as int);
                }
                return Some(j);
            }
            j = j + 1;
        }
        proof {
            lemma_find_nb_none(self.names@, *resource_type, name@);
        }
        None
    }

    /// Loads data and metadata for the resource with the given type and
    /// name. The provided `dest` is resized to the size of the loaded
    /// resource, and resource data is copied into `dest`.
    ///
    /// Resources are uniquely identified by their type and name (or ID;
    /// see [`ResourceFork::load_by_id`]). Resources may or may not have a
    /// name. If a resource does not have a name, it can only be loaded by
    /// ID. Multiple resources may have the same non-empty name as long as
    /// they are not of the same type.
    ///
    /// # Errors
    ///
    /// This method returns an error if no resource could be found for the
    /// given type/name, or if loading the bound ID fails as for
    /// [`ResourceFork::load_by_id`].
    pub fn load_by_name(&self, resource_type: ResourceType, name: String, dest: &mut Vec<u8>) -> (r:
        Result<&ResourceMetadata, ResourceError>)
        ensures
            ({
                match spec_find_nb(self.names@, resource_type, name@) {
                    None => final(dest)@ == old(dest)@ && r == Err::<
                        &ResourceMetadata,
                        ResourceError,
                    >(ResourceError::NotFound),
                    Some(j) => ({
                        let outcome = spec_load(
                            self,
                            resource_type,
                            self.names@[j].id,
                            old(dest)@,
                        );
                        &&& final(dest)@ == outcome.0
                        &&& (outcome.1 matches Ok(i) ==> (r matches Ok(m) && *m
                            == self.entries@[i]))
                        &&& (outcome.1 matches Err(e) ==> r == Err::<
                            &ResourceMetadata,
                            ResourceError,
                        >(e))
                    }),
                }
            }),
    {
        match self.find_name(&resource_type, &name) {
            Some(j) => self.load_by_id(resource_type, self.names[j].id, dest),
            None => Err(ResourceError::NotFound),
        }
    }
}

/// The outcome of loading one resource's data from a fork: what the
/// destination holds afterwards (unchanged from `dest0` on error) and
/// either the index of the entry served or the error.
pub open spec fn spec_load(
    f: &ResourceFork,
    resource_type: ResourceType,
    id: u16,
    dest0: Seq<u8>,
) -> (Seq<u8>, Result<int, ResourceError>) {
    match spec_find_rm(f.entries@, resource_type, id) {
        None => (dest0, Err(ResourceError::NotFound)),
        Some(i) => {
            let e = f.entries@[i];
            if f.data_len < e.data_offset + 4 {
                (dest0, Err(ResourceError::CorruptResourceData))
            } else if f.data_offset + e.data_offset + 4 > f.source@.len() {
                (dest0, Err(ResourceError::UnexpectedEof))
            } else {
                let pos = f.data_offset + e.data_offset;
                let resource_len = spec_u32_of(f.source@, pos);
                if f.data_len < e.data_offset + 4 + resource_len {
                    (dest0, Err(ResourceError::CorruptResourceData))
                } else if pos + 4 + resource_len > f.source@.len() {
                    (dest0, Err(ResourceError::UnexpectedEof))
                } else {
                    (f.source@.subrange(pos + 4, pos + 4 + resource_len), Ok(i))
                }
            }
        },
    }
}

} // verus!
