//! Image, collection and stored-file records.
//!
//! These are read-only snapshots of what the metadata store holds: the
//! engine receives copies and never writes them back.

use vstd::prelude::*;

use crate::PALETTE_MAX;
use crate::format::{dec_chars, dec_to_string, uuid_chars, uuid_to_string};

verus! {

/// Optional per-image metadata: a dominant-color palette of at most
/// [`PALETTE_MAX`] `(r, g, b)` triples, a wall-clock timestamp in seconds
/// since the epoch, and the original file name.
#[derive(Debug)]
pub struct ImageMetadata {
    pub palette: Option<Vec<(u8, u8, u8)>>,
    pub date_time: Option<i64>,
    pub name: Option<String>,
}

/// One image record: an opaque 128-bit identifier, pixel dimensions, and
/// optional metadata. Width and height inside a packing computation are
/// working values; mutations are local to the packing call.
#[derive(Debug)]
pub struct Image {
    pub id: u128,
    pub collection_id: u128,
    pub width: u32,
    pub height: u32,
    pub metadata: ImageMetadata,
}

/// Two records carry the same data: equal plain fields, and palette and
/// name contents that match element for element.
pub open spec fn records_match(a: Image, b: Image) -> bool {
    &&& a.id == b.id
    &&& a.collection_id == b.collection_id
    &&& a.width == b.width
    &&& a.height == b.height
    &&& a.metadata.date_time == b.metadata.date_time
    &&& (a.metadata.palette is Some <==> b.metadata.palette is Some)
    &&& (a.metadata.palette is Some ==> a.metadata.palette->0@ == b.metadata.palette->0@)
    &&& (a.metadata.name is Some <==> b.metadata.name is Some)
    &&& (a.metadata.name is Some ==> a.metadata.name->0@ == b.metadata.name->0@)
}

impl Image {
    /// A record is well formed when its palette, if present, holds at most
    /// [`PALETTE_MAX`] entries.
    pub open spec fn wf(self) -> bool {
        self.metadata.palette is Some ==> self.metadata.palette->0@.len() <= PALETTE_MAX
    }

    /// Deep copy; the copy carries the same data as the original.
    pub fn duplicate(&self) -> (r: Image)
        ensures
            records_match(r, *self),
            r.wf() == self.wf(),
    {
        let palette: Option<Vec<(u8, u8, u8)>> = match &self.metadata.palette {
            None => None,
            Some(p) => {
                let mut q: Vec<(u8, u8, u8)> = Vec::new();
                let mut i: usize = 0;
                while i < p.len()
                    invariant
                        i <= p.len(),
                        q@ =~= p@.subrange(0, i as int),
                    decreases p.len() - i,
                {
                    q.push(p[i]);
                    i += 1;
                }
                proof {
                    assert(q@ =~= p@);
                }
                Some(q)
            },
        };
        let name: Option<String> = match &self.metadata.name {
            None => None,
            Some(n) => Some(n.clone()),
        };
        Image {
            id: self.id,
            collection_id: self.collection_id,
            width: self.width,
            height: self.height,
            metadata: ImageMetadata { palette, date_time: self.metadata.date_time, name },
        }
    }
}

/// Whole sequences of well-formed records.
pub open spec fn all_wf(s: Seq<Image>) -> bool {
    forall|i: int| 0 <= i < s.len() ==> #[trigger] s[i].wf()
}

/// A 128-bit image identifier destined for its lowercase-hyphenated text
/// form on the wire.
#[derive(Debug)]
pub struct UuidString(pub u128);

impl From<u128> for UuidString {
    fn from(value: u128) -> (r: UuidString) {
        UuidString(value)
    }
}

impl vstd::std_specs::convert::FromSpecImpl<u128> for UuidString {
    open spec fn obeys_from_spec() -> bool {
        true
    }

    open spec fn from_spec(value: u128) -> Self {
        UuidString(value)
    }
}

/// A collection of images; `finalized` is flipped by an explicit finalize
/// action and cleared again when new uploads arrive.
pub struct Collection {
    pub id: u128,
    pub name: String,
    pub finalized: bool,
}

/// Insertion request for a new collection.
pub struct NewCollection {
    pub name: String,
}

/// Insertion request for a new image record.
pub struct NewImage {
    pub width: u32,
    pub height: u32,
    pub collection_id: u128,
}

/// Body of a collection-creation request.
pub struct CreateCollectionRequest {
    pub name: String,
}

/// Flat `(id, width, height)` projection of a record, served to listing
/// callers.
pub struct ImageMetadataResponse(pub u128, pub u32, pub u32);

/// What a stored file of an image is: the untouched original upload, a
/// resized thumbnail, or the reserved (unimplemented) partial kind.
pub enum ImageFileKind {
    Original,
    Thumbnail,
    Partial,
}

/// One stored file of an image at a concrete size.
pub struct ImageFile {
    pub image_id: u128,
    pub width: u32,
    pub height: u32,
    pub extension: String,
    pub kind: ImageFileKind,
}

/// Where a stored file lives under the images directory: the id's text
/// form as a directory, then the size tier (or `original`), then the
/// file extension. The reserved partial kind has no path.
pub open spec fn file_path_chars(f: ImageFile) -> Seq<char> {
    "./images/"@ + uuid_chars(f.image_id) + "/"@ + (match f.kind {
        ImageFileKind::Thumbnail => dec_chars(f.width as int) + "x"@ + dec_chars(f.height as int),
        _ => "original"@,
    }) + "."@ + f.extension@
}

impl ImageFile {
    /// Builds the stored file's path text. The reserved partial kind is
    /// unreachable here by contract, as it has always been.
    pub fn get_path(&self) -> (r: String)
        requires
            !(self.kind is Partial),
        ensures
            r@ == file_path_chars(*self),
    {
        let mut path = String::from_str("./images/");
        let id_text = uuid_to_string(self.image_id);
        path.append(id_text.as_str());
        path.append("/");
        match self.kind {
            ImageFileKind::Thumbnail => {
                let w = dec_to_string(self.width);
                let h = dec_to_string(self.height);
                path.append(w.as_str());
                path.append("x");
                path.append(h.as_str());
            },
            _ => {
                path.append("original");
            },
        }
        path.append(".");
        path.append(self.extension.as_str());
        proof {
            assert(path@ =~= file_path_chars(*self));
        }
        path
    }
}

/// Where a collection's cached static atlas lives.
pub open spec fn atlas_path_chars(collection_id: u128) -> Seq<char> {
    "./images/atlases/"@ + uuid_chars(collection_id) + ".msgp"@
}

/// Builds the cached static atlas path of a collection.
pub fn get_static_atlas_path(collection_id: u128) -> (r: String)
    ensures
        r@ == atlas_path_chars(collection_id),
{
    let mut path = String::from_str("./images/atlases/");
    let id_text = uuid_to_string(collection_id);
    path.append(id_text.as_str());
    path.append(".msgp");
    proof {
        assert(path@ =~= atlas_path_chars(collection_id));
    }
    path
}

} // verus!
