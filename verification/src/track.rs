//! Track records.
//!
//! A [`File`] describes one discovered audio file: where it lives, its size
//! and modification time, and the tags the warmer extracted. Its stable ID is
//! the murmur3 hash of its absolute path, so the same path always maps to the
//! same ID. A [`FileHashed`] is the client-facing copy handed out on
//! selection, whose `path` field carries a playback token instead of the real
//! path.

use vstd::prelude::*;
use vstd::string::StrSliceExecFns;
use vstd::string::StringExecFns;

use crate::strutil::spec_after_last;
use crate::strutil::after_last;

verus! {

/// The stable ID of a path: what `murmurhash32::murmurhash3` returns for the
/// path's UTF-8 bytes. The hash is a pure function of those bytes, so the ID
/// is the same on every computation and on every machine.
pub uninterp spec fn murmur_of(path: Seq<char>) -> u32;

/// Relies on `murmurhash32::murmurhash3`: a pure hash of the given bytes,
/// named `murmur_of` over the path's characters.
#[verifier::external_body]
fn murmur_hash(path: &str) -> (r: u32)
    ensures
        r == murmur_of(path@),
{
    murmurhash32::murmurhash3(path.as_bytes())
}

/// Relies on `uuid::Uuid::new_v4` and its `Display` form: a fresh random
/// UUID rendered in the 36-character hyphenated form. Nothing more can be
/// promised of a random value.
#[verifier::external_body]
pub(crate) fn fresh_uuid() -> (r: String)
    ensures
        r@.len() == 36,
{
    uuid::Uuid::new_v4().to_string()
}

/// The ID of a path is a function of the path alone: equal paths always hash
/// to equal IDs, on every computation and across restarts.
pub proof fn lemma_id_deterministic(path_a: Seq<char>, path_b: Seq<char>)
    requires
        path_a == path_b,
    ensures
        murmur_of(path_a) == murmur_of(path_b),
{
}

/// A discovered audio file and everything the catalog knows about it.
#[derive(Debug)]
pub struct File {
    pub id: u32,
    pub path: String,
    pub file_name: String,
    pub file_ext: String,
    pub file_size: u64,
    pub file_modified: u64,
    pub title: String,
    pub artist: String,
    pub album: String,
    pub duration: u64,
    pub indexed_at: u64,
    pub accessed_at: u64,
    pub parse_fail: bool,
}

/// The client-facing copy of a record: `path` holds a playback token, never
/// the real filesystem path.
#[derive(Debug)]
pub struct FileHashed {
    pub path: String,
    pub ext: String,
    pub title: String,
    pub artist: String,
    pub album: String,
    pub file: String,
}

/// What tag extraction yields for one file: the audible duration in seconds
/// and the three text tags, empty when the file carries none.
#[derive(Debug)]
pub struct TagData {
    pub duration: u64,
    pub title: String,
    pub artist: String,
    pub album: String,
}

/// A track record at the level contracts speak of: every string as its
/// character sequence.
pub ghost struct TrackModel {
    pub id: u32,
    pub path: Seq<char>,
    pub file_name: Seq<char>,
    pub file_ext: Seq<char>,
    pub file_size: u64,
    pub file_modified: u64,
    pub title: Seq<char>,
    pub artist: Seq<char>,
    pub album: Seq<char>,
    pub duration: u64,
    pub indexed_at: u64,
    pub accessed_at: u64,
    pub parse_fail: bool,
}

/// The characters of `path` after its last `/`: the file's name.
pub open spec fn spec_file_name_of(path: Seq<char>) -> Seq<char> {
    path.subrange(spec_after_last(path, '/'), path.len() as int)
}

/// The extension of a file name: the characters after its last `.`, empty
/// when there is no `.` or when the only `.` starts the name (a hidden file).
pub open spec fn spec_ext_of(path: Seq<char>) -> Seq<char> {
    let name = spec_file_name_of(path);
    let dot = spec_after_last(name, '.');
    if dot <= 1 {
        Seq::<char>::empty()
    } else {
        name.subrange(dot, name.len() as int)
    }
}

impl View for File {
    type V = TrackModel;

    open spec fn view(&self) -> TrackModel {
        TrackModel {
            id: self.id,
            path: self.path@,
            file_name: self.file_name@,
            file_ext: self.file_ext@,
            file_size: self.file_size,
            file_modified: self.file_modified,
            title: self.title@,
            artist: self.artist@,
            album: self.album@,
            duration: self.duration,
            indexed_at: self.indexed_at,
            accessed_at: self.accessed_at,
            parse_fail: self.parse_fail,
        }
    }
}

impl Clone for File {
    fn clone(&self) -> (r: Self)
        ensures
            r == *self,
    {
        File {
            id: self.id,
            path: self.path.clone(),
            file_name: self.file_name.clone(),
            file_ext: self.file_ext.clone(),
            file_size: self.file_size,
            file_modified: self.file_modified,
            title: self.title.clone(),
            artist: self.artist.clone(),
            album: self.album.clone(),
            duration: self.duration,
            indexed_at: self.indexed_at,
            accessed_at: self.accessed_at,
            parse_fail: self.parse_fail,
        }
    }
}

impl Clone for FileHashed {
    fn clone(&self) -> (r: Self)
        ensures
            r == *self,
    {
        FileHashed {
            path: self.path.clone(),
            ext: self.ext.clone(),
            title: self.title.clone(),
            artist: self.artist.clone(),
            album: self.album.clone(),
            file: self.file.clone(),
        }
    }
}

/// A bare record for `path`: the shape `new_empty_file_from_path` returns
/// before any stat or tag data arrives.
pub open spec fn spec_bare_record(m: TrackModel, path: Seq<char>) -> bool {
    &&& m.id == murmur_of(path)
    &&& m.path == path
    &&& m.file_name == spec_file_name_of(path)
    &&& m.file_ext == spec_ext_of(path)
    &&& m.file_size == 0
    &&& m.file_modified == 0
    &&& m.title == Seq::<char>::empty()
    &&& m.artist == Seq::<char>::empty()
    &&& m.album == Seq::<char>::empty()
    &&& m.duration == 0
    &&& m.indexed_at == 0
    &&& m.accessed_at == 0
    &&& m.parse_fail == false
}

impl File {
    /// A bare record for a path: stable ID, name and extension derived from
    /// the path's characters, every other field still unset.
    pub fn new_empty_file_from_path(path: &str) -> (r: File)
        ensures
            spec_bare_record(r@, path@),
    {
        let id = murmur_hash(path);
        let n = path.unicode_len();
        let name_start = after_last(path, '/');
        proof {
            crate::strutil::lemma_after_last_in_range(path@, '/');
        }
        let file_name = path.substring_char(name_start, n).to_owned();
        let name_len = file_name.as_str().unicode_len();
        let dot = after_last(file_name.as_str(), '.');
        proof {
            crate::strutil::lemma_after_last_in_range(file_name@, '.');
        }
        let file_ext = if dot <= 1 {
            String::new()
        } else {
            file_name.as_str().substring_char(dot, name_len).to_owned()
        };
        File {
            id,
            path: path.to_owned(),
            file_name,
            file_ext,
            file_size: 0,
            file_modified: 0,
            title: String::new(),
            artist: String::new(),
            album: String::new(),
            duration: 0,
            indexed_at: 0,
            accessed_at: 0,
            parse_fail: false,
        }
    }

    /// Record the size and modification time the filesystem reported, and
    /// reset everything a future warm pass will fill.
    pub fn populate_from_path(&mut self, file_size: u64, file_modified: u64)
        requires
            old(self).path@.len() > 0,
            old(self).id != 0,
        ensures
            final(self).id == old(self).id,
            final(self).path == old(self).path,
            final(self).file_name == old(self).file_name,
            final(self).file_ext == old(self).file_ext,
            final(self).file_size == file_size,
            final(self).file_modified == file_modified,
            final(self).title@ == Seq::<char>::empty(),
            final(self).artist@ == Seq::<char>::empty(),
            final(self).album@ == Seq::<char>::empty(),
            final(self).duration == 0,
            final(self).indexed_at == 0,
            final(self).accessed_at == 0,
            final(self).parse_fail == false,
    {
        self.file_size = file_size;
        self.file_modified = file_modified;
        self.title = String::new();
        self.artist = String::new();
        self.album = String::new();
        self.duration = 0;
        self.indexed_at = 0;
        self.accessed_at = 0;
        self.parse_fail = false;
    }

    /// Copy extracted tags into the record.
    pub fn fill_tags(&mut self, title: String, artist: String, album: String)
        ensures
            *final(self) == (File { title, artist, album, ..*old(self) }),
    {
        self.title = title;
        self.artist = artist;
        self.album = album;
    }

    /// Apply the outcome of tag extraction: on success take the duration and
    /// tags; on failure mark the record as unparsable, touching nothing else.
    pub fn populate_lofty(&mut self, extraction: Option<TagData>)
        ensures
            match extraction {
                Some(tags) => *final(self) == (File {
                    duration: tags.duration,
                    title: tags.title,
                    artist: tags.artist,
                    album: tags.album,
                    parse_fail: false,
                    ..*old(self)
                }),
                None => *final(self) == (File { parse_fail: true, ..*old(self) }),
            },
    {
        match extraction {
            Some(tags) => {
                self.duration = tags.duration;
                self.parse_fail = false;
                self.fill_tags(tags.title, tags.artist, tags.album);
            },
            None => {
                self.parse_fail = true;
            },
        }
    }

    /// Issue a fresh playback token and let the record remember when it was
    /// last handed out: the token replaces the path on this copy.
    pub fn get_unique_id(&mut self, now: u64) -> (r: String)
        ensures
            r@.len() == 36,
            final(self).path@ == r@,
            *final(self) == (File { path: final(self).path, accessed_at: now, ..*old(self) }),
    {
        let token = fresh_uuid();
        self.accessed_at = now;
        self.path = token.clone();
        token
    }

    /// The client-facing copy of this record: a fresh token in place of the
    /// path, the display fields copied over.
    pub fn to_response(&mut self, now: u64) -> (r: FileHashed)
        ensures
            r.path@ == final(self).path@,
            r.path@.len() == 36,
            r.ext == old(self).file_ext,
            r.title == old(self).title,
            r.artist == old(self).artist,
            r.album == old(self).album,
            r.file == old(self).file_name,
            *final(self) == (File { path: final(self).path, accessed_at: now, ..*old(self) }),
    {
        let token = self.get_unique_id(now);
        FileHashed {
            path: token,
            ext: self.file_ext.clone(),
            title: self.title.clone(),
            artist: self.artist.clone(),
            album: self.album.clone(),
            file: self.file_name.clone(),
        }
    }
}

} // verus!
