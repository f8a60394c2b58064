//! The post record returned by the search API, reduced to the plain fields
//! the core reads. Network transport and JSON decoding live outside the
//! library; callers hand finished records in.

use vstd::prelude::*;

verus! {

/// File metadata of a post.
#[derive(Clone, Debug, PartialEq)]
pub struct File {
    pub width: u64,
    pub height: u64,
    pub ext: String,
    pub size: u64,
    pub md5: String,
    pub url: Option<String>,
}

/// Preview (thumbnail) metadata of a post.
#[derive(Clone, Debug, PartialEq)]
pub struct Preview {
    pub width: u64,
    pub height: u64,
    pub url: Option<String>,
}

/// Sample (reduced resolution) metadata of a post.
#[derive(Clone, Debug, PartialEq)]
pub struct Sample {
    pub has: bool,
    pub height: u64,
    pub width: u64,
    pub url: Option<String>,
}

/// Vote tallies of a post.
#[derive(Clone, Copy, Debug, PartialEq, Eq, Structural)]
pub struct Score {
    pub up: i64,
    pub down: i64,
    pub total: i64,
}

/// Tag lists of a post, grouped by tag category.
#[derive(Clone, Debug, PartialEq)]
pub struct Tags {
    pub general: Vec<String>,
    pub species: Vec<String>,
    pub character: Vec<String>,
    pub copyright: Vec<String>,
    pub artist: Vec<String>,
    pub invalid: Vec<String>,
    pub meta: Vec<String>,
    pub lore: Vec<String>,
}

/// Moderation flags of a post.
#[derive(Clone, Copy, Debug, PartialEq, Eq, Structural)]
pub struct Flags {
    pub pending: bool,
    pub flagged: bool,
    pub note_locked: bool,
    pub status_locked: bool,
    pub rating_locked: bool,
    pub deleted: bool,
}

/// Parent/child relationships of a post.
#[derive(Clone, Debug, PartialEq)]
pub struct Relationships {
    pub parent_id: Option<u64>,
    pub has_children: bool,
    pub has_active_children: bool,
    pub children: Vec<u64>,
}

/// One post record of the search API.
#[derive(Clone, Debug, PartialEq)]
pub struct Post {
    pub id: u64,
    pub created_at: String,
    pub updated_at: String,
    pub file: File,
    pub preview: Preview,
    pub sample: Sample,
    pub score: Score,
    pub tags: Tags,
    pub locked_tags: Vec<String>,
    pub change_seq: u64,
    pub flags: Flags,
    pub rating: String,
    pub fav_count: u64,
    pub sources: Vec<String>,
    pub pools: Vec<u64>,
    pub relationships: Relationships,
    pub approver_id: Option<u64>,
    pub uploader_id: u64,
    pub description: String,
    pub comment_count: u64,
    pub is_favorited: bool,
    pub has_notes: bool,
}


/// The spec-level image of a `Tags` value: each tag list as a sequence.
pub struct TagsV {
    pub general: Seq<String>,
    pub species: Seq<String>,
    pub character: Seq<String>,
    pub copyright: Seq<String>,
    pub artist: Seq<String>,
    pub invalid: Seq<String>,
    pub meta: Seq<String>,
    pub lore: Seq<String>,
}

impl Tags {
    /// The spec-level image of this value.
    pub open spec fn view_spec(self) -> TagsV {
        TagsV {
            general: self.general@,
            species: self.species@,
            character: self.character@,
            copyright: self.copyright@,
            artist: self.artist@,
            invalid: self.invalid@,
            meta: self.meta@,
            lore: self.lore@,
        }
    }
}

/// The spec-level image of a `Relationships` value.
pub struct RelationshipsV {
    pub parent_id: Option<u64>,
    pub has_children: bool,
    pub has_active_children: bool,
    pub children: Seq<u64>,
}

impl Relationships {
    /// The spec-level image of this value.
    pub open spec fn view_spec(self) -> RelationshipsV {
        RelationshipsV {
            parent_id: self.parent_id,
            has_children: self.has_children,
            has_active_children: self.has_active_children,
            children: self.children@,
        }
    }
}

/// The spec-level image of a `Post` value: list fields become sequences,
/// everything else keeps its value.
pub struct PostV {
    pub id: u64,
    pub created_at: String,
    pub updated_at: String,
    pub file: File,
    pub preview: Preview,
    pub sample: Sample,
    pub score: Score,
    pub tags: TagsV,
    pub locked_tags: Seq<String>,
    pub change_seq: u64,
    pub flags: Flags,
    pub rating: String,
    pub fav_count: u64,
    pub sources: Seq<String>,
    pub pools: Seq<u64>,
    pub relationships: RelationshipsV,
    pub approver_id: Option<u64>,
    pub uploader_id: u64,
    pub description: String,
    pub comment_count: u64,
    pub is_favorited: bool,
    pub has_notes: bool,
}

impl Post {
    /// The spec-level image of this value. Two posts with equal images
    /// carry the same data, even when their list fields are distinct
    /// allocations.
    pub open spec fn view_spec(self) -> PostV {
        PostV {
            id: self.id,
            created_at: self.created_at,
            updated_at: self.updated_at,
            file: self.file,
            preview: self.preview,
            sample: self.sample,
            score: self.score,
            tags: self.tags.view_spec(),
            locked_tags: self.locked_tags@,
            change_seq: self.change_seq,
            flags: self.flags,
            rating: self.rating,
            fav_count: self.fav_count,
            sources: self.sources@,
            pools: self.pools@,
            relationships: self.relationships.view_spec(),
            approver_id: self.approver_id,
            uploader_id: self.uploader_id,
            description: self.description,
            comment_count: self.comment_count,
            is_favorited: self.is_favorited,
            has_notes: self.has_notes,
        }
    }
}

pub(crate) fn dup_opt_string(v: &Option<String>) -> (r: Option<String>)
    ensures
        r == *v,
{
    match v {
        Some(s) => Some(s.clone()),
        None => None,
    }
}

fn dup_strings(v: &Vec<String>) -> (r: Vec<String>)
    ensures
        r@ == v@,
{
    let mut r: Vec<String> = Vec::new();
    let n = v.len();
    let mut i: usize = 0;
    while i < n
        invariant
            n == v@.len(),
            i <= n,
            r@ =~= v@.subrange(0, i as int),
        decreases n - i,
    {
        r.push(v[i].clone());
        i = i + 1;
    }
    assert(r@ =~= v@);
    r
}

fn dup_u64s(v: &Vec<u64>) -> (r: Vec<u64>)
    ensures
        r@ == v@,
{
    let mut r: Vec<u64> = Vec::new();
    let n = v.len();
    let mut i: usize = 0;
    while i < n
        invariant
            n == v@.len(),
            i <= n,
            r@ =~= v@.subrange(0, i as int),
        decreases n - i,
    {
        r.push(v[i]);
        i = i + 1;
    }
    assert(r@ =~= v@);
    r
}

impl File {
    /// An exact copy; unlike the derived clone, its result is known equal.
    pub fn duplicate(&self) -> (r: File)
        ensures
            r == *self,
    {
        File {
            width: self.width,
            height: self.height,
            ext: self.ext.clone(),
            size: self.size,
            md5: self.md5.clone(),
            url: dup_opt_string(&self.url),
        }
    }
}

impl Preview {
    /// An exact copy; unlike the derived clone, its result is known equal.
    pub fn duplicate(&self) -> (r: Preview)
        ensures
            r == *self,
    {
        Preview { width: self.width, height: self.height, url: dup_opt_string(&self.url) }
    }
}

impl Sample {
    /// An exact copy; unlike the derived clone, its result is known equal.
    pub fn duplicate(&self) -> (r: Sample)
        ensures
            r == *self,
    {
        Sample {
            has: self.has,
            height: self.height,
            width: self.width,
            url: dup_opt_string(&self.url),
        }
    }
}

impl Tags {
    /// An exact copy; unlike the derived clone, its result is known equal.
    pub fn duplicate(&self) -> (r: Tags)
        ensures
            r.view_spec() == self.view_spec(),
    {
        let r = Tags {
            general: dup_strings(&self.general),
            species: dup_strings(&self.species),
            character: dup_strings(&self.character),
            copyright: dup_strings(&self.copyright),
            artist: dup_strings(&self.artist),
            invalid: dup_strings(&self.invalid),
            meta: dup_strings(&self.meta),
            lore: dup_strings(&self.lore),
        };
        proof {
            assert(r.view_spec() =~= self.view_spec());
        }
        r
    }
}

impl Relationships {
    /// An exact copy; unlike the derived clone, its result is known equal.
    pub fn duplicate(&self) -> (r: Relationships)
        ensures
            r.view_spec() == self.view_spec(),
    {
        let r = Relationships {
            parent_id: self.parent_id,
            has_children: self.has_children,
            has_active_children: self.has_active_children,
            children: dup_u64s(&self.children),
        };
        proof {
            assert(r.view_spec() =~= self.view_spec());
        }
        r
    }
}

impl Post {
    /// An exact copy; unlike the derived clone, its result is known equal.
    pub fn duplicate(&self) -> (r: Post)
        ensures
            r.view_spec() == self.view_spec(),
    {
        let r = Post {
            id: self.id,
            created_at: self.created_at.clone(),
            updated_at: self.updated_at.clone(),
            file: self.file.duplicate(),
            preview: self.preview.duplicate(),
            sample: self.sample.duplicate(),
            score: self.score,
            tags: self.tags.duplicate(),
            locked_tags: dup_strings(&self.locked_tags),
            change_seq: self.change_seq,
            flags: self.flags,
            rating: self.rating.clone(),
            fav_count: self.fav_count,
            sources: dup_strings(&self.sources),
            pools: dup_u64s(&self.pools),
            relationships: self.relationships.duplicate(),
            approver_id: self.approver_id,
            uploader_id: self.uploader_id,
            description: self.description.clone(),
            comment_count: self.comment_count,
            is_favorited: self.is_favorited,
            has_notes: self.has_notes,
        };
        proof {
            assert(r.view_spec() =~= self.view_spec());
        }
        r
    }
}

} // verus!
