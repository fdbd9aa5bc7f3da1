//! The metadata record extracted from one audio file: optional artist, album,
//! disc, track and title, and a mandatory extension. Tag extraction from the
//! audio containers themselves happens outside this crate; the record and the
//! vorbis-comment grouping logic live here.

use vstd::prelude::*;

use crate::error::MusoError;
use crate::error::SpecError;
use crate::strutil::parse_u32;
use crate::strutil::spec_dec;
use crate::strutil::spec_parse_u32;
use crate::strutil::str_eq;
use crate::strutil::u32_to_string;

verus! {

/// Spec-level shape of a [`Metadata`] record.
pub struct SpecMetadata {
    pub artist: Option<Seq<char>>,
    pub album: Option<Seq<char>>,
    pub disc: Option<u32>,
    pub track: Option<u32>,
    pub title: Option<Seq<char>>,
    pub ext: Seq<char>,
}

/// The tags of one audio file. Accessors fail with `MissingTag` when the
/// field is absent, except the extension, which is always known.
#[derive(Debug, Clone)]
pub struct Metadata {
    pub artist: Option<String>,
    pub album: Option<String>,
    pub disc: Option<u32>,
    pub track: Option<u32>,
    pub title: Option<String>,
    pub ext: String,
}

impl View for Metadata {
    type V = SpecMetadata;

    open spec fn view(&self) -> SpecMetadata {
        SpecMetadata {
            artist: self.artist.deep_view(),
            album: self.album.deep_view(),
            disc: self.disc,
            track: self.track,
            title: self.title.deep_view(),
            ext: self.ext@,
        }
    }
}

/// The index of the first entry of `m` whose key is `key`, or -1.
pub open spec fn spec_assoc_index(m: Seq<(Seq<char>, Seq<Seq<char>>)>, key: Seq<char>) -> int
    decreases m.len(),
{
    if m.len() == 0 {
        -1
    } else if m[0].0 == key {
        0
    } else {
        let r = spec_assoc_index(m.drop_first(), key);
        if r < 0 {
            -1
        } else {
            r + 1
        }
    }
}

/// The values grouped under the first entry of `m` with key `key`.
pub open spec fn spec_assoc_find(m: Seq<(Seq<char>, Seq<Seq<char>>)>, key: Seq<char>) -> Option<
    Seq<Seq<char>>,
> {
    let i = spec_assoc_index(m, key);
    if i >= 0 {
        Some(m[i].1)
    } else {
        None
    }
}

pub proof fn lemma_assoc_index_found(m: Seq<(Seq<char>, Seq<Seq<char>>)>, key: Seq<char>, j: int)
    requires
        0 <= j < m.len(),
        m[j].0 == key,
        forall|l: int| 0 <= l < j ==> m[l].0 != key,
    ensures
        spec_assoc_index(m, key) == j,
    decreases j,
{
    if j == 0 {
    } else {
        assert(m[0].0 != key);
        assert(forall|l: int| 0 <= l < j - 1 ==> m.drop_first()[l] == m[l + 1]);
        lemma_assoc_index_found(m.drop_first(), key, j - 1);
    }
}

pub proof fn lemma_assoc_index_none(m: Seq<(Seq<char>, Seq<Seq<char>>)>, key: Seq<char>)
    requires
        forall|l: int| 0 <= l < m.len() ==> m[l].0 != key,
    ensures
        spec_assoc_index(m, key) == -1,
    decreases m.len(),
{
    if m.len() > 0 {
        assert(forall|l: int| 0 <= l < m.drop_first().len() ==> m.drop_first()[l] == m[l + 1]);
        lemma_assoc_index_none(m.drop_first(), key);
    }
}

/// The first entry of `m` with key exactly `key`, scanning in order.
fn assoc_find<'a>(m: &'a Vec<(String, Vec<String>)>, key: &str) -> (r: Option<&'a Vec<String>>)
    ensures
        match r {
            Some(vs) => spec_assoc_find(m.deep_view(), key@) == Some(vs.deep_view()),
            None => spec_assoc_find(m.deep_view(), key@) is None,
        },
{
    let n = m.len();
    let mut i: usize = 0;
    while i < n
        invariant
            0 <= i <= n,
            n == m@.len(),
            m.deep_view().len() == n,
            forall|l: int| 0 <= l < n ==> #[trigger] m.deep_view()[l] == (
            m@[l].0@,
            m@[l].1.deep_view(),
            ),
            forall|l: int| 0 <= l < i ==> m.deep_view()[l].0 != key@,
        decreases n - i,
    {
        if str_eq(m[i].0.as_str(), key) {
            proof {
                lemma_assoc_index_found(m.deep_view(), key@, i as int);
            }
            return Some(&m[i].1);
        }
        i = i + 1;
    }
    proof {
        lemma_assoc_index_none(m.deep_view(), key@);
    }
    None
}

/// The first value grouped under `key`, if the key is present and carries at
/// least one value.
pub open spec fn spec_first_of(m: Seq<(Seq<char>, Seq<Seq<char>>)>, key: Seq<char>) -> Option<
    Seq<char>,
> {
    match spec_assoc_find(m, key) {
        Some(vs) => if vs.len() > 0 {
            Some(vs[0])
        } else {
            None
        },
        None => None,
    }
}

fn first_of(m: &Vec<(String, Vec<String>)>, key: &str) -> (r: Option<String>)
    ensures
        match r {
            Some(s) => spec_first_of(m.deep_view(), key@) == Some(s@),
            None => spec_first_of(m.deep_view(), key@) is None,
        },
{
    match assoc_find(m, key) {
        Some(vs) => {
            if vs.len() > 0 {
                Some(vs[0].clone())
            } else {
                None
            }
        },
        None => None,
    }
}

/// What a vorbis comment list yields as a metadata record: `ALBUMARTIST`
/// wins over `ARTIST`, disc and track numbers parse as decimal integers, and
/// only the first value of a key counts.
pub open spec fn spec_from_vorbis(m: Seq<(Seq<char>, Seq<Seq<char>>)>, ext: Seq<char>)
    -> SpecMetadata {
    SpecMetadata {
        artist: match spec_first_of(m, "ALBUMARTIST"@) {
            Some(a) => Some(a),
            None => spec_first_of(m, "ARTIST"@),
        },
        album: spec_first_of(m, "ALBUM"@),
        disc: match spec_first_of(m, "DISCNUMBER"@) {
            Some(s) => spec_parse_u32(s),
            None => None,
        },
        track: match spec_first_of(m, "TRACKNUMBER"@) {
            Some(s) => spec_parse_u32(s),
            None => None,
        },
        title: spec_first_of(m, "TITLE"@),
        ext: ext,
    }
}

/// Inserting one `(key, value)` pair into a grouped comment list: the value
/// joins the first entry with that key, or a fresh entry at the end.
pub open spec fn spec_group_insert(
    acc: Seq<(Seq<char>, Seq<Seq<char>>)>,
    key: Seq<char>,
    val: Seq<char>,
) -> Seq<(Seq<char>, Seq<Seq<char>>)> {
    let i = spec_assoc_index(acc, key);
    if i >= 0 {
        acc.update(i, (acc[i].0, acc[i].1.push(val)))
    } else {
        acc.push((key, seq![val]))
    }
}

/// Grouping a flat comment list, pair by pair from the left.
pub open spec fn spec_group_from(
    list: Seq<(Seq<char>, Seq<char>)>,
    i: int,
    acc: Seq<(Seq<char>, Seq<Seq<char>>)>,
) -> Seq<(Seq<char>, Seq<Seq<char>>)>
    decreases list.len() - i,
{
    if i < 0 || i >= list.len() {
        acc
    } else {
        spec_group_from(list, i + 1, spec_group_insert(acc, list[i].0, list[i].1))
    }
}

impl Metadata {
    /// Groups a flat `(key, value)` comment list by key, keeping keys in
    /// first-occurrence order and values in list order.
    pub fn ogg_comment_map(list: Vec<(String, String)>) -> (r: Vec<(String, Vec<String>)>)
        ensures
            r.deep_view() == spec_group_from(list.deep_view(), 0, Seq::empty()),
    {
        let n = list.len();
        let mut acc: Vec<(String, Vec<String>)> = Vec::new();
        proof {
            assert(acc.deep_view() =~= Seq::<(Seq<char>, Seq<Seq<char>>)>::empty());
        }
        let mut i: usize = 0;
        while i < n
            invariant
                0 <= i <= n,
                n == list@.len(),
                list.deep_view().len() == n,
                spec_group_from(list.deep_view(), 0, Seq::empty()) == spec_group_from(
                    list.deep_view(),
                    i as int,
                    acc.deep_view(),
                ),
            decreases n - i,
        {
            proof {
                assert(list.deep_view()[i as int] == (list@[i as int].0@, list@[i as int].1@));
            }
            let key = list[i].0.clone();
            let val = list[i].1.clone();
            let ghost pre = acc.deep_view();
            // scan for the first entry with this key
            let m = acc.len();
            let mut j: usize = 0;
            let mut found = false;
            while j < m && !found
                invariant
                    0 <= j <= m,
                    m == acc@.len(),
                    acc.deep_view().len() == m,
                    acc.deep_view() == pre,
                    forall|l: int| 0 <= l < acc@.len() ==> #[trigger] acc.deep_view()[l] == (
                    acc@[l].0@,
                    acc@[l].1.deep_view(),
                    ),
                    !found ==> forall|l: int| 0 <= l < j ==> acc.deep_view()[l].0 != key@,
                    found ==> j < m && acc.deep_view()[j as int].0 == key@ && (forall|l: int|
                        0 <= l < j ==> acc.deep_view()[l].0 != key@),
                decreases m - j + (if found {
                    0int
                } else {
                    1int
                }),
            {
                if str_eq(acc[j].0.as_str(), key.as_str()) {
                    found = true;
                } else {
                    j = j + 1;
                }
            }
            if found {
                proof {
                    lemma_assoc_index_found(acc.deep_view(), key@, j as int);
                }
                acc[j].1.push(val);
                proof {
                    assert(acc.deep_view() =~~= spec_group_insert(pre, key@, val@));
                }
            } else {
                proof {
                    lemma_assoc_index_none(acc.deep_view(), key@);
                }
                let mut vals: Vec<String> = Vec::new();
                vals.push(val);
                acc.push((key, vals));
                proof {
                    assert(vals.deep_view() =~~= seq![val@]);
                    assert(acc.deep_view() =~~= pre.push((key@, seq![val@])));
                }
            }
            i = i + 1;
        }
        acc
    }

    /// Builds the record that a grouped vorbis comment list describes;
    /// never fails.
    pub fn from_vorbis_comments(comments: Vec<(String, Vec<String>)>, ext: &str) -> (r: Result<
        Metadata,
        MusoError,
    >)
        ensures
            r matches Ok(md) && md@ == spec_from_vorbis(comments.deep_view(), ext@),
    {
        let artist = match first_of(&comments, "ALBUMARTIST") {
            Some(a) => Some(a),
            None => first_of(&comments, "ARTIST"),
        };
        let album = first_of(&comments, "ALBUM");
        let disc = match first_of(&comments, "DISCNUMBER") {
            Some(s) => parse_u32(s.as_str()),
            None => None,
        };
        let track = match first_of(&comments, "TRACKNUMBER") {
            Some(s) => parse_u32(s.as_str()),
            None => None,
        };
        let title = first_of(&comments, "TITLE");
        Ok(Metadata { artist, album, disc, track, title, ext: ext.to_owned() })
    }

    /// The artist, or `MissingTag` when absent.
    pub fn get_artist(&self) -> (r: Result<String, MusoError>)
        ensures
            match self@.artist {
                Some(a) => r matches Ok(s) && s@ == a,
                None => r matches Err(e) && e@ == (SpecError::MissingTag { tag: "artist"@ }),
            },
    {
        match &self.artist {
            Some(s) => Ok(s.clone()),
            None => Err(MusoError::MissingTag { tag: "artist".to_owned() }),
        }
    }

    /// The album, or `MissingTag` when absent.
    pub fn get_album(&self) -> (r: Result<String, MusoError>)
        ensures
            match self@.album {
                Some(a) => r matches Ok(s) && s@ == a,
                None => r matches Err(e) && e@ == (SpecError::MissingTag { tag: "album"@ }),
            },
    {
        match &self.album {
            Some(s) => Ok(s.clone()),
            None => Err(MusoError::MissingTag { tag: "album".to_owned() }),
        }
    }

    /// The disc number rendered in decimal, or `MissingTag` when absent.
    pub fn get_disc(&self) -> (r: Result<String, MusoError>)
        ensures
            match self@.disc {
                Some(n) => r matches Ok(s) && s@ == spec_dec(n as nat),
                None => r matches Err(e) && e@ == (SpecError::MissingTag { tag: "disc"@ }),
            },
    {
        match self.disc {
            Some(n) => Ok(u32_to_string(n)),
            None => Err(MusoError::MissingTag { tag: "disc".to_owned() }),
        }
    }

    /// The track number rendered in decimal, or `MissingTag` when absent.
    pub fn get_track(&self) -> (r: Result<String, MusoError>)
        ensures
            match self@.track {
                Some(n) => r matches Ok(s) && s@ == spec_dec(n as nat),
                None => r matches Err(e) && e@ == (SpecError::MissingTag { tag: "track"@ }),
            },
    {
        match self.track {
            Some(n) => Ok(u32_to_string(n)),
            None => Err(MusoError::MissingTag { tag: "track".to_owned() }),
        }
    }

    /// The title, or `MissingTag` when absent.
    pub fn get_title(&self) -> (r: Result<String, MusoError>)
        ensures
            match self@.title {
                Some(a) => r matches Ok(s) && s@ == a,
                None => r matches Err(e) && e@ == (SpecError::MissingTag { tag: "title"@ }),
            },
    {
        match &self.title {
            Some(s) => Ok(s.clone()),
            None => Err(MusoError::MissingTag { tag: "title".to_owned() }),
        }
    }

    /// The detected extension; always known.
    pub fn get_ext(&self) -> (r: String)
        ensures
            r@ == self@.ext,
    {
        self.ext.clone()
    }
}

} // verus!
