//! The human-readable metadata carried beside each snapshot.

use vstd::prelude::*;

use crate::clock::current_unix_timestamp;

verus! {

/// Descriptive data for one snapshot: identity, naming, timestamps and
/// free-form tags and fields. `world_time` carries the world clock as an
/// IEEE-754 bit pattern.
#[derive(Debug, PartialEq)]
pub struct SnapshotMetadata {
    pub id: String,
    pub name: Option<String>,
    pub description: Option<String>,
    pub created_at: i64,
    pub world_time: u64,
    pub schema_version: u32,
    pub custom_fields: Vec<(String, String)>,
    pub tags: Vec<String>,
}

/// Mathematical view of a [`SnapshotMetadata`].
#[verifier::ext_equal]
pub ghost struct MetadataV {
    pub id: Seq<char>,
    pub name: Option<Seq<char>>,
    pub description: Option<Seq<char>>,
    pub created_at: i64,
    pub world_time: u64,
    pub schema_version: u32,
    pub custom_fields: Seq<(Seq<char>, Seq<char>)>,
    pub tags: Seq<Seq<char>>,
}

impl View for SnapshotMetadata {
    type V = MetadataV;

    open spec fn view(&self) -> MetadataV {
        MetadataV {
            id: self.id@,
            name: self.name.deep_view(),
            description: self.description.deep_view(),
            created_at: self.created_at,
            world_time: self.world_time,
            schema_version: self.schema_version,
            custom_fields: self.custom_fields.deep_view(),
            tags: self.tags.deep_view(),
        }
    }
}

impl DeepView for SnapshotMetadata {
    type V = MetadataV;

    open spec fn deep_view(&self) -> MetadataV {
        self.view()
    }
}

impl Clone for SnapshotMetadata {
    /// A copy with the same view.
    fn clone(&self) -> (r: Self)
        ensures
            r@ == self@,
    {
        let name = match &self.name {
            Some(s) => Some(s.clone()),
            None => None,
        };
        let description = match &self.description {
            Some(s) => Some(s.clone()),
            None => None,
        };
        let mut custom_fields: Vec<(String, String)> = Vec::new();
        let n = self.custom_fields.len();
        let mut i: usize = 0;
        while i < n
            invariant
                i <= n,
                n == self.custom_fields@.len(),
                custom_fields@.len() == i,
                forall|k: int|
                    0 <= k < i ==> #[trigger] custom_fields@[k].deep_view()
                        == self.custom_fields@[k].deep_view(),
            decreases n - i,
        {
            let c = (self.custom_fields[i].0.clone(), self.custom_fields[i].1.clone());
            proof {
                assert(c.deep_view() == self.custom_fields@[i as int].deep_view());
            }
            custom_fields.push(c);
            i += 1;
        }
        let mut tags: Vec<String> = Vec::new();
        let m = self.tags.len();
        let mut j: usize = 0;
        while j < m
            invariant
                j <= m,
                m == self.tags@.len(),
                tags@.len() == j,
                forall|k: int|
                    0 <= k < j ==> #[trigger] tags@[k].deep_view() == self.tags@[k].deep_view(),
            decreases m - j,
        {
            tags.push(self.tags[j].clone());
            j += 1;
        }
        let r = SnapshotMetadata {
            id: self.id.clone(),
            name: name,
            description: description,
            created_at: self.created_at,
            world_time: self.world_time,
            schema_version: self.schema_version,
            custom_fields: custom_fields,
            tags: tags,
        };
        proof {
            assert(custom_fields.deep_view() =~= self.custom_fields.deep_view());
            assert(tags.deep_view() =~= self.tags.deep_view());
            assert(r@ =~= self@);
        }
        r
    }
}

impl SnapshotMetadata {
    /// Fresh metadata for `id`: unnamed, schema version 1, zero world
    /// time, no fields or tags, created now.
    pub fn new(id: String) -> (r: Self)
        ensures
            r@.id == id@,
            r@.name is None,
            r@.description is None,
            r@.world_time == 0,
            r@.schema_version == 1,
            r@.custom_fields =~= Seq::<(Seq<char>, Seq<char>)>::empty(),
            r@.tags =~= Seq::<Seq<char>>::empty(),
    {
        SnapshotMetadata {
            id: id,
            name: None,
            description: None,
            created_at: current_unix_timestamp(),
            world_time: 0,
            schema_version: 1,
            custom_fields: Vec::new(),
            tags: Vec::new(),
        }
    }

    /// The same metadata with a display name.
    pub fn with_name(self, name: String) -> (r: Self)
        ensures
            r@ == (MetadataV { name: Some(name@), ..self@ }),
    {
        SnapshotMetadata { name: Some(name), ..self }
    }

    /// The same metadata with a description.
    pub fn with_description(self, description: String) -> (r: Self)
        ensures
            r@ == (MetadataV { description: Some(description@), ..self@ }),
    {
        SnapshotMetadata { description: Some(description), ..self }
    }

    /// The same metadata with one more tag.
    pub fn with_tag(self, tag: String) -> (r: Self)
        ensures
            r@ == (MetadataV { tags: self@.tags.push(tag@), ..self@ }),
    {
        let ghost orig = self@;
        let mut s = self;
        s.tags.push(tag);
        proof {
            assert(s@.tags =~= orig.tags.push(tag@));
            assert(s@ =~= (MetadataV { tags: orig.tags.push(tag@), ..orig }));
        }
        s
    }

    /// The same metadata with `key` mapped to `value`: an existing entry
    /// for the key is replaced, otherwise the pair is appended.
    pub fn with_custom_field(self, key: String, value: String) -> (r: Self)
        ensures
            r@.id == self@.id && r@.name == self@.name && r@.description == self@.description
                && r@.created_at == self@.created_at && r@.world_time == self@.world_time
                && r@.schema_version == self@.schema_version && r@.tags == self@.tags,
            (exists|i: int|
                0 <= i < self@.custom_fields.len() && (#[trigger] self@.custom_fields[i]).0
                    == key@) ==> (exists|i: int|
                0 <= i < self@.custom_fields.len() && (#[trigger] self@.custom_fields[i]).0 == key@
                    && r@.custom_fields == self@.custom_fields.update(i, (key@, value@))),
            !(exists|i: int|
                0 <= i < self@.custom_fields.len() && (#[trigger] self@.custom_fields[i]).0
                    == key@) ==> r@.custom_fields == self@.custom_fields.push((key@, value@)),
    {
        let ghost orig = self@;
        let mut s = self;
        let n = s.custom_fields.len();
        let mut i: usize = 0;
        while i < n
            invariant
                i <= n,
                n == s.custom_fields@.len(),
                s@ == orig,
                orig == self@,
                forall|k: int|
                    0 <= k < i ==> (#[trigger] s.custom_fields.deep_view()[k]).0 != key@,
            decreases n - i,
        {
            if crate::text::str_eq(s.custom_fields[i].0.as_str(), key.as_str()) {
                proof {
                    assert(s.custom_fields.deep_view()[i as int].0 == key@);
                }
                s.custom_fields.set(i, (key, value));
                proof {
                    assert(s@.custom_fields =~= orig.custom_fields.update(
                        i as int,
                        (key@, value@),
                    ));
                    assert(s@.tags =~= orig.tags);
                    assert(s@.id == orig.id && s@.name == orig.name && s@.description
                        == orig.description && s@.created_at == orig.created_at && s@.world_time
                        == orig.world_time && s@.schema_version == orig.schema_version);
                    assert((orig.custom_fields[i as int]).0 == key@);
                }
                return s;
            }
            i += 1;
        }
        s.custom_fields.push((key, value));
        proof {
            assert(orig == self@);
            assert(s@.custom_fields =~= orig.custom_fields.push((key@, value@)));
            assert(s@.tags =~= orig.tags);
        }
        s
    }
}

} // verus!
