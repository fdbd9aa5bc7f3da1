//! The compiled template: the flat component list of a format string split
//! into directory segments and one trailing file segment, and the path
//! builder that applies the template to one metadata record.

use vstd::prelude::*;

use crate::error::MusoError;
use crate::error::SpecError;
use crate::metadata::Metadata;
use crate::metadata::SpecMetadata;
use crate::parser::parse_format_string;
use crate::parser::spec_parse_components;
use crate::parser::BasicComponent;
use crate::parser::FsComponent;
use crate::parser::Placeholder;
use crate::parser::SpecBasic;
use crate::parser::SpecFs;
use crate::parser::Tag;
use crate::strutil::chars_of;
use crate::strutil::push_char;
use crate::strutil::spec_dec;
use crate::strutil::string_range;

verus! {

/// The end of the maximal run of characters other than `/` starting at `i`.
pub open spec fn spec_till_slash(s: Seq<char>, i: int) -> int
    decreases s.len() - i,
{
    if 0 <= i && i < s.len() && s[i] != '/' {
        spec_till_slash(s, i + 1)
    } else {
        i
    }
}

proof fn lemma_till_slash_at(s: Seq<char>, i: int, m: int)
    requires
        0 <= i <= m <= s.len(),
        forall|l: int| i <= l < m ==> s[l] != '/',
        m == s.len() || s[m] == '/',
    ensures
        spec_till_slash(s, i) == m,
    decreases m - i,
{
    if i < m {
        lemma_till_slash_at(s, i + 1, m);
    }
}

/// The parts of `s` between its `/` characters, in order; one more part than
/// there are slashes, empty parts included.
pub open spec fn spec_split_slash(s: Seq<char>) -> Seq<Seq<char>>
    decreases s.len(),
{
    let j = spec_till_slash(s, 0);
    if 0 <= j && j < s.len() {
        seq![s.subrange(0, j)] + spec_split_slash(s.subrange(j + 1, s.len() as int))
    } else {
        seq![s]
    }
}

fn split_slash(s: &str) -> (r: Vec<String>)
    ensures
        r.deep_view() == spec_split_slash(s@),
        r@.len() >= 1,
{
    let v = chars_of(s);
    let n = v.len();
    let mut parts: Vec<String> = Vec::new();
    proof {
        assert(parts.deep_view() =~= Seq::<Seq<char>>::empty());
    }
    proof {
        assert(s@.subrange(0, s@.len() as int) =~= s@);
        assert(parts.deep_view() + spec_split_slash(s@) =~~= spec_split_slash(s@));
    }
    let mut start: usize = 0;
    let mut k: usize = 0;
    while k < n
        invariant
            0 <= start <= k <= n,
            n == v@.len(),
            v@ == s@,
            forall|l: int| start <= l < k ==> s@[l] != '/',
            spec_split_slash(s@) == parts.deep_view() + spec_split_slash(
                s@.subrange(start as int, n as int),
            ),
        decreases n - k,
    {
        if v[k] == '/' {
            let part = string_range(&v, start, k);
            let ghost pre = parts.deep_view();
            parts.push(part);
            proof {
                let sub = s@.subrange(start as int, n as int);
                assert(forall|l: int| 0 <= l < sub.len() ==> sub[l] == s@[start + l]);
                lemma_till_slash_at(sub, 0, k - start);
                assert(sub.subrange(0, k - start) =~= s@.subrange(start as int, k as int));
                assert(sub.subrange(k - start + 1, sub.len() as int) =~= s@.subrange(
                    k + 1,
                    n as int,
                ));
                assert(spec_split_slash(sub) == seq![s@.subrange(start as int, k as int)]
                    + spec_split_slash(s@.subrange(k + 1, n as int)));
                assert(parts.deep_view() =~~= pre.push(s@.subrange(start as int, k as int)));
                assert(pre + (seq![s@.subrange(start as int, k as int)] + spec_split_slash(
                    s@.subrange(k + 1, n as int),
                )) =~~= parts.deep_view() + spec_split_slash(s@.subrange(k + 1, n as int)));
            }
            start = k + 1;
        }
        k = k + 1;
    }
    let part = string_range(&v, start, n);
    let ghost pre = parts.deep_view();
    parts.push(part);
    proof {
        let sub = s@.subrange(start as int, n as int);
        assert(forall|l: int| 0 <= l < sub.len() ==> sub[l] == s@[start + l]);
        lemma_till_slash_at(sub, 0, n - start);
        assert(spec_split_slash(sub) == seq![sub]);
        assert(parts.deep_view() =~~= pre.push(sub));
        assert(pre + seq![sub] =~~= parts.deep_view());
    }
    parts
}

/// Folds the slash-split parts of one literal into the running segment
/// accumulator: every part but the last closes a directory segment; empty
/// parts contribute no literal.
pub open spec fn spec_flush_parts(
    parts: Seq<Seq<char>>,
    acc: Seq<SpecBasic>,
    segs: Seq<SpecFs>,
) -> (Seq<SpecBasic>, Seq<SpecFs>)
    decreases parts.len(),
{
    if parts.len() == 0 {
        (acc, segs)
    } else {
        let acc1 = if parts[0].len() == 0 {
            acc
        } else {
            acc.push(SpecBasic::Literal(parts[0]))
        };
        if parts.len() == 1 {
            (acc1, segs)
        } else {
            spec_flush_parts(parts.drop_first(), Seq::empty(), segs.push(SpecFs::Dir(acc1)))
        }
    }
}

/// Walks the flat component list, splitting literals on `/` into directory
/// segments and accumulating everything else.
pub open spec fn spec_segmentize(
    comps: Seq<SpecBasic>,
    i: int,
    acc: Seq<SpecBasic>,
    segs: Seq<SpecFs>,
) -> (Seq<SpecBasic>, Seq<SpecFs>)
    decreases comps.len() - i,
{
    if i < 0 || i >= comps.len() {
        (acc, segs)
    } else {
        match comps[i] {
            SpecBasic::Literal(s) => {
                let (a, g) = spec_flush_parts(spec_split_slash(s), acc, segs);
                spec_segmentize(comps, i + 1, a, g)
            },
            SpecBasic::Placeholder(p) => spec_segmentize(
                comps,
                i + 1,
                acc.push(SpecBasic::Placeholder(p)),
                segs,
            ),
        }
    }
}

/// The segments of a parsed component list: the accumulated directory
/// segments, and whatever remains as the file segment (omitted only if
/// empty).
pub open spec fn spec_fs_components(comps: Seq<SpecBasic>) -> Seq<SpecFs> {
    let (acc, segs) = spec_segmentize(comps, 0, Seq::empty(), Seq::empty());
    if acc.len() == 0 {
        segs
    } else {
        segs.push(SpecFs::File(acc))
    }
}

/// What compiling a format string yields: the segment list, or nothing where
/// the string is malformed.
pub open spec fn spec_from_str(s: Seq<char>) -> Option<Seq<SpecFs>> {
    match spec_parse_components(s) {
        Some(cs) => Some(spec_fs_components(cs)),
        None => None,
    }
}

/// Whether `c` is rewritten to `_` in a resolved value: `/` always, the
/// FAT/exFAT-illegal characters only in exfat-compat mode.
pub open spec fn spec_replaced(c: char, exfat: bool) -> bool {
    c == '/' || (exfat && (c == '"' || c == '*' || c == ':' || c == '<' || c == '>' || c == '\\'
        || c == '?' || c == '|'))
}

/// `s` with every rewritten character replaced by `_`.
pub open spec fn spec_sanitize(s: Seq<char>, exfat: bool) -> Seq<char> {
    Seq::new(s.len(), |i: int| if spec_replaced(s[i], exfat) {
        '_'
    } else {
        s[i]
    })
}

/// `s` left-padded with `'0'` to width `w` (unchanged when already as long).
pub open spec fn spec_pad(s: Seq<char>, w: nat) -> Seq<char> {
    if w > s.len() {
        Seq::new((w - s.len()) as nat, |i: int| '0') + s
    } else {
        s
    }
}

/// What one placeholder resolves to against a metadata record: the value,
/// nothing (optional and absent), or `MissingTag` (required and absent).
/// Disc and track render in decimal, padded to their leading width.
pub open spec fn spec_resolve(md: SpecMetadata, p: Placeholder) -> Result<
    Option<Seq<char>>,
    SpecError,
> {
    let opt = p.spec_is_optional();
    match p.spec_tag() {
        Tag::Artist => match md.artist {
            Some(a) => Ok(Some(a)),
            None => if opt {
                Ok(None)
            } else {
                Err(SpecError::MissingTag { tag: "artist"@ })
            },
        },
        Tag::Album => match md.album {
            Some(a) => Ok(Some(a)),
            None => if opt {
                Ok(None)
            } else {
                Err(SpecError::MissingTag { tag: "album"@ })
            },
        },
        Tag::Disc { leading } => match md.disc {
            Some(n) => Ok(Some(spec_pad(spec_dec(n as nat), leading as nat))),
            None => if opt {
                Ok(None)
            } else {
                Err(SpecError::MissingTag { tag: "disc"@ })
            },
        },
        Tag::Track { leading } => match md.track {
            Some(n) => Ok(Some(spec_pad(spec_dec(n as nat), leading as nat))),
            None => if opt {
                Ok(None)
            } else {
                Err(SpecError::MissingTag { tag: "track"@ })
            },
        },
        Tag::Title => match md.title {
            Some(a) => Ok(Some(a)),
            None => if opt {
                Ok(None)
            } else {
                Err(SpecError::MissingTag { tag: "title"@ })
            },
        },
        Tag::Ext => Ok(Some(md.ext)),
    }
}

/// Builds one directory segment from component `j` on, appending to `acc`:
/// literals verbatim, resolved placeholder values sanitized. An optional
/// placeholder that resolves to nothing fails with `OptionalInDir`; the
/// segment closes with a `/`.
pub open spec fn spec_build_dir_from(
    seg: Seq<SpecBasic>,
    j: int,
    acc: Seq<char>,
    md: SpecMetadata,
    exfat: bool,
) -> Result<Seq<char>, SpecError>
    decreases seg.len() - j,
{
    if j < 0 || j >= seg.len() {
        Ok(acc.push('/'))
    } else {
        match seg[j] {
            SpecBasic::Literal(s) => spec_build_dir_from(seg, j + 1, acc + s, md, exfat),
            SpecBasic::Placeholder(p) => match spec_resolve(md, p) {
                Err(e) => Err(e),
                Ok(None) => Err(SpecError::OptionalInDir),
                Ok(Some(v)) => spec_build_dir_from(
                    seg,
                    j + 1,
                    acc + spec_sanitize(v, exfat),
                    md,
                    exfat,
                ),
            },
        }
    }
}

/// Builds the file segment from component `j` on, appending to `acc` and
/// counting placeholders that are required and not `ext`. Optional-and-absent
/// placeholders contribute nothing; a segment that ends with a zero count
/// fails with `RequiredInFile`.
pub open spec fn spec_build_file_from(
    seg: Seq<SpecBasic>,
    j: int,
    acc: Seq<char>,
    count: nat,
    md: SpecMetadata,
    exfat: bool,
) -> Result<Seq<char>, SpecError>
    decreases seg.len() - j,
{
    if j < 0 || j >= seg.len() {
        if count < 1 {
            Err(SpecError::RequiredInFile)
        } else {
            Ok(acc)
        }
    } else {
        match seg[j] {
            SpecBasic::Literal(s) => spec_build_file_from(seg, j + 1, acc + s, count, md, exfat),
            SpecBasic::Placeholder(p) => {
                let count2 = if !p.spec_is_optional() && !(p.spec_tag() is Ext) {
                    count + 1
                } else {
                    count
                };
                match spec_resolve(md, p) {
                    Err(e) => Err(e),
                    Ok(None) => spec_build_file_from(seg, j + 1, acc, count2, md, exfat),
                    Ok(Some(v)) => spec_build_file_from(
                        seg,
                        j + 1,
                        acc + spec_sanitize(v, exfat),
                        count2,
                        md,
                        exfat,
                    ),
                }
            },
        }
    }
}

/// Builds the whole path from segment `i` on, appending to `acc`.
pub open spec fn spec_build_from(
    segs: Seq<SpecFs>,
    i: int,
    acc: Seq<char>,
    md: SpecMetadata,
    exfat: bool,
) -> Result<Seq<char>, SpecError>
    decreases segs.len() - i,
{
    if i < 0 || i >= segs.len() {
        Ok(acc)
    } else {
        let step = match segs[i] {
            SpecFs::Dir(seg) => spec_build_dir_from(seg, 0, acc, md, exfat),
            SpecFs::File(seg) => spec_build_file_from(seg, 0, acc, 0, md, exfat),
        };
        match step {
            Err(e) => Err(e),
            Ok(acc2) => spec_build_from(segs, i + 1, acc2, md, exfat),
        }
    }
}

/// The destination path a compiled template yields for one metadata record,
/// or the first error raised while building it.
pub open spec fn spec_build_path(segs: Seq<SpecFs>, md: SpecMetadata, exfat: bool) -> Result<
    Seq<char>,
    SpecError,
> {
    spec_build_from(segs, 0, Seq::empty(), md, exfat)
}

/// A format string compiled once into directory segments and at most one
/// trailing file segment, kept together with its source text.
#[derive(Debug)]
pub struct ParsedFormat {
    fs_components: Vec<FsComponent>,
    orig_string: String,
}

impl View for ParsedFormat {
    type V = Seq<SpecFs>;

    closed spec fn view(&self) -> Seq<SpecFs> {
        self.fs_components.deep_view()
    }
}

impl ParsedFormat {
    /// The source text this template was compiled from.
    pub closed spec fn spec_source(self) -> Seq<char> {
        self.orig_string@
    }

    /// A compiled template always is the compilation of its source text.
    #[verifier::type_invariant]
    pub closed spec fn wf(self) -> bool {
        spec_from_str(self.orig_string@) == Some(self.fs_components.deep_view())
    }

    /// Compiles a format string. Returns exactly the segments the grammar
    /// and the segmentation rules yield for `s`, keeping `s` itself for
    /// later persistence; a malformed string fails with `FailedToParse`.
    pub fn from_str(s: &str) -> (r: Result<ParsedFormat, MusoError>)
        ensures
            match spec_from_str(s@) {
                Some(segs) => r matches Ok(f) && f@ == segs && f.spec_source() == s@,
                None => r matches Err(e) && e@ is FailedToParse,
            },
    {
        let cs = match parse_format_string(s) {
            Ok(cs) => cs,
            Err(e) => {
                return Err(e);
            },
        };
        let ghost comps = cs.deep_view();
        let n = cs.len();
        let mut segs: Vec<FsComponent> = Vec::new();
        let mut acc: Vec<BasicComponent> = Vec::new();
        proof {
            assert(segs.deep_view() =~= Seq::<SpecFs>::empty());
            assert(acc.deep_view() =~= Seq::<SpecBasic>::empty());
        }
        let mut i: usize = 0;
        while i < n
            invariant
                0 <= i <= n,
                n == cs@.len(),
                cs.deep_view() == comps,
                spec_segmentize(comps, 0, Seq::empty(), Seq::empty()) == spec_segmentize(
                    comps,
                    i as int,
                    acc.deep_view(),
                    segs.deep_view(),
                ),
            decreases n - i,
        {
            let c = &cs[i];
            match c {
                BasicComponent::Literal(lit) => {
                    let ghost lseq = lit@;
                    let parts = split_slash(lit.as_str());
                    let ghost pseq = parts.deep_view();
                    let ghost acc0 = acc.deep_view();
                    let ghost segs0 = segs.deep_view();
                    let np = parts.len();
                    proof {
                        assert(pseq.subrange(0, np as int) =~~= pseq);
                    }
                    let mut pi: usize = 0;
                    while pi + 1 < np
                        invariant
                            0 <= pi < np,
                            np == parts@.len(),
                            parts.deep_view() == pseq,
                            spec_flush_parts(pseq, acc0, segs0) == spec_flush_parts(
                                pseq.subrange(pi as int, np as int),
                                acc.deep_view(),
                                segs.deep_view(),
                            ),
                        decreases np - pi,
                    {
                        let ghost sub = pseq.subrange(pi as int, np as int);
                        let ghost acc_d = acc.deep_view();
                        let ghost segs_d = segs.deep_view();
                        if !parts[pi].as_str().is_empty() {
                            acc.push(BasicComponent::Literal(parts[pi].clone()));
                            proof {
                                assert(acc.deep_view() =~~= acc_d.push(
                                    SpecBasic::Literal(pseq[pi as int]),
                                ));
                            }
                        }
                        segs.push(FsComponent::Dir(acc));
                        acc = Vec::new();
                        proof {
                            let acc1 = if sub[0].len() == 0 {
                                acc_d
                            } else {
                                acc_d.push(SpecBasic::Literal(sub[0]))
                            };
                            assert(sub[0] == pseq[pi as int]);
                            assert(segs.deep_view() =~~= segs_d.push(SpecFs::Dir(acc1)));
                            assert(acc.deep_view() =~= Seq::<SpecBasic>::empty());
                            assert(sub.drop_first() =~~= pseq.subrange(pi + 1, np as int));
                            assert(spec_flush_parts(sub, acc_d, segs_d) == spec_flush_parts(
                                pseq.subrange(pi + 1, np as int),
                                Seq::empty(),
                                segs_d.push(SpecFs::Dir(acc1)),
                            ));
                        }
                        pi = pi + 1;
                    }
                    let ghost acc_d = acc.deep_view();
                    if !parts[pi].as_str().is_empty() {
                        acc.push(BasicComponent::Literal(parts[pi].clone()));
                        proof {
                            assert(acc.deep_view() =~~= acc_d.push(
                                SpecBasic::Literal(pseq[pi as int]),
                            ));
                        }
                    }
                    proof {
                        let sub = pseq.subrange(pi as int, np as int);
                        assert(sub.len() == 1);
                        assert(sub[0] == pseq[pi as int]);
                        assert(spec_flush_parts(sub, acc_d, segs.deep_view()) == (
                            acc.deep_view(),
                            segs.deep_view(),
                        ));
                        assert(spec_split_slash(lseq) == pseq);
                        assert(spec_segmentize(comps, i as int, acc0, segs0) == spec_segmentize(
                            comps,
                            i + 1,
                            acc.deep_view(),
                            segs.deep_view(),
                        ));
                    }
                },
                BasicComponent::Placeholder(p) => {
                    let ghost acc_d = acc.deep_view();
                    let p2 = *p;
                    acc.push(BasicComponent::Placeholder(p2));
                    proof {
                        assert(acc.deep_view() =~~= acc_d.push(SpecBasic::Placeholder(p2)));
                    }
                },
            }
            i = i + 1;
        }
        if acc.len() > 0 {
            segs.push(FsComponent::File(acc));
            proof {
                let (fa, fg) = spec_segmentize(comps, 0, Seq::empty(), Seq::empty());
                assert(segs.deep_view() =~~= fg.push(SpecFs::File(fa)));
            }
        }
        let fmt = ParsedFormat { fs_components: segs, orig_string: s.to_owned() };
        proof {
            assert(fmt.wf());
        }
        Ok(fmt)
    }

    /// The source text, verbatim: not a re-rendering of the structure. What
    /// it returns re-compiles to exactly this template.
    pub fn to_text(&self) -> (r: &str)
        ensures
            r@ == self.spec_source(),
            spec_from_str(r@) == Some(self@),
    {
        proof {
            use_type_invariant(self);
        }
        self.orig_string.as_str()
    }

    /// An equal compiled template: same segments, same source text.
    pub fn duplicate(&self) -> (r: ParsedFormat)
        ensures
            r@ == self@,
            r.spec_source() == self.spec_source(),
    {
        match Self::from_str(self.to_text()) {
            Ok(f) => f,
            Err(_) => {
                proof {
                    assert(false);
                }
                vstd::pervasive::unreached()
            },
        }
    }

    /// Replaces path-hostile characters in a resolved value by `_`: `/`
    /// always, the FAT/exFAT-illegal set only in exfat-compat mode.
    pub fn replace(string: String, exfat_compat: bool) -> (r: String)
        ensures
            r@ == spec_sanitize(string@, exfat_compat),
    {
        let v = chars_of(string.as_str());
        let n = v.len();
        let mut r = String::new();
        let mut k: usize = 0;
        while k < n
            invariant
                0 <= k <= n,
                n == v@.len(),
                v@ == string@,
                r@ == spec_sanitize(string@, exfat_compat).subrange(0, k as int),
            decreases n - k,
        {
            let c = v[k];
            let mapped = if c == '/' {
                '_'
            } else if exfat_compat && (c == '"' || c == '*' || c == ':' || c == '<' || c == '>'
                || c == '\\' || c == '?' || c == '|') {
                '_'
            } else {
                c
            };
            push_char(&mut r, mapped);
            proof {
                assert(r@ =~= spec_sanitize(string@, exfat_compat).subrange(0, k + 1));
            }
            k = k + 1;
        }
        proof {
            assert(spec_sanitize(string@, exfat_compat).subrange(
                0,
                string@.len() as int,
            ) =~= spec_sanitize(string@, exfat_compat));
        }
        r
    }

    /// Left-pads `string` with `'0'` to `leading` characters; a width of 0 or
    /// a string already as long is returned unchanged.
    pub fn add_leading_zeros(string: String, leading: u8) -> (r: String)
        ensures
            r@ == spec_pad(string@, leading as nat),
    {
        let len = string.unicode_len();
        if (leading as usize) > len {
            let target = leading as usize - len;
            let mut r = String::new();
            let mut k: usize = 0;
            while k < target
                invariant
                    0 <= k <= target,
                    r@ =~= Seq::new(k as nat, |i: int| '0'),
                decreases target - k,
            {
                push_char(&mut r, '0');
                proof {
                    assert(r@ =~= Seq::new((k + 1) as nat, |i: int| '0'));
                }
                k = k + 1;
            }
            r.append(string.as_str());
            proof {
                assert(r@ =~= spec_pad(string@, leading as nat));
            }
            r
        } else {
            string
        }
    }

    /// What one placeholder yields for this record: `Ok(Some(..))` with the
    /// resolved (padded, for disc and track) value, `Ok(None)` where an
    /// optional tag is absent, and `MissingTag` where a required one is.
    pub fn get_from_metadata(metadata: &Metadata, pholder: Placeholder) -> (r: Result<
        Option<String>,
        MusoError,
    >)
        ensures
            match spec_resolve(metadata@, pholder) {
                Ok(Some(sv)) => r matches Ok(o) && o matches Some(s2) && s2@ == sv,
                Ok(None) => r matches Ok(o) && o is None,
                Err(e) => r matches Err(e2) && e2@ == e,
            },
    {
        let is_optional = pholder.is_optional();
        let tag = pholder.into_tag();
        match tag {
            Tag::Artist => match metadata.get_artist() {
                Ok(artist) => Ok(Some(artist)),
                Err(e) => if is_optional {
                    Ok(None)
                } else {
                    Err(e)
                },
            },
            Tag::Album => match metadata.get_album() {
                Ok(album) => Ok(Some(album)),
                Err(e) => if is_optional {
                    Ok(None)
                } else {
                    Err(e)
                },
            },
            Tag::Disc { leading } => match metadata.get_disc() {
                Ok(disc) => Ok(Some(Self::add_leading_zeros(disc, leading))),
                Err(e) => if is_optional {
                    Ok(None)
                } else {
                    Err(e)
                },
            },
            Tag::Track { leading } => match metadata.get_track() {
                Ok(track) => Ok(Some(Self::add_leading_zeros(track, leading))),
                Err(e) => if is_optional {
                    Ok(None)
                } else {
                    Err(e)
                },
            },
            Tag::Title => match metadata.get_title() {
                Ok(title) => Ok(Some(title)),
                Err(e) => if is_optional {
                    Ok(None)
                } else {
                    Err(e)
                },
            },
            Tag::Ext => Ok(Some(metadata.get_ext())),
        }
    }

    /// Applies this template to one metadata record. The result is exactly
    /// what the build rules yield for these inputs: a function of the
    /// template, the record and the flag, and of nothing else.
    pub fn build_path(&self, metadata: &Metadata, exfat_compat: bool) -> (r: Result<
        String,
        MusoError,
    >)
        ensures
            match spec_build_path(self@, metadata@, exfat_compat) {
                Ok(p) => r matches Ok(s) && s@ == p,
                Err(e) => r matches Err(e2) && e2@ == e,
            },
    {
        let mut path = String::new();
        let ghost md = metadata@;
        let ghost segs = self@;
        let n = self.fs_components.len();
        proof {
            assert(path@ =~= Seq::<char>::empty());
        }
        let mut i: usize = 0;
        while i < n
            invariant
                0 <= i <= n,
                n == self.fs_components@.len(),
                segs == self@,
                md == metadata@,
                segs.len() == n,
                spec_build_path(segs, md, exfat_compat) == spec_build_from(
                    segs,
                    i as int,
                    path@,
                    md,
                    exfat_compat,
                ),
            decreases n - i,
        {
            let seg = &self.fs_components[i];
            proof {
                assert(segs[i as int] == self.fs_components@[i as int].deep_view());
            }
            match seg {
                FsComponent::Dir(dir) => {
                    let ghost dseq = dir.deep_view();
                    let ghost acc0 = path@;
                    proof {
                        assert(segs[i as int] == SpecFs::Dir(dseq));
                    }
                    let m = dir.len();
                    let mut j: usize = 0;
                    while j < m
                        invariant
                            0 <= j <= m,
                            m == dir@.len(),
                            dir.deep_view() == dseq,
                            md == metadata@,
                            segs == self@,
                            0 <= i < segs.len(),
                            segs[i as int] == SpecFs::Dir(dseq),
                            spec_build_path(segs, md, exfat_compat) == spec_build_from(
                                segs,
                                i as int,
                                acc0,
                                md,
                                exfat_compat,
                            ),
                            spec_build_dir_from(dseq, 0, acc0, md, exfat_compat)
                                == spec_build_dir_from(dseq, j as int, path@, md, exfat_compat),
                        decreases m - j,
                    {
                        let comp = &dir[j];
                        proof {
                            assert(dseq[j as int] == dir@[j as int].deep_view());
                        }
                        match comp {
                            BasicComponent::Literal(s) => {
                                proof {
                                    assert(dseq[j as int] == SpecBasic::Literal(s@));
                                }
                                path.append(s.as_str());
                            },
                            BasicComponent::Placeholder(p) => {
                                proof {
                                    assert(dseq[j as int] == SpecBasic::Placeholder(*p));
                                }
                                match Self::get_from_metadata(metadata, *p) {
                                    Err(e) => {
                                        proof {
                                            assert(spec_build_dir_from(
                                                dseq,
                                                j as int,
                                                path@,
                                                md,
                                                exfat_compat,
                                            ) == Err::<Seq<char>, SpecError>(e@));
                                            assert(spec_build_path(segs, md, exfat_compat)
                                                == Err::<Seq<char>, SpecError>(e@));
                                        }
                                        return Err(e);
                                    },
                                    Ok(None) => {
                                        proof {
                                            assert(spec_build_dir_from(
                                                dseq,
                                                j as int,
                                                path@,
                                                md,
                                                exfat_compat,
                                            ) == Err::<Seq<char>, SpecError>(
                                                SpecError::OptionalInDir,
                                            ));
                                            assert(spec_build_path(segs, md, exfat_compat)
                                                == Err::<Seq<char>, SpecError>(
                                                SpecError::OptionalInDir,
                                            ));
                                        }
                                        return Err(MusoError::OptionalInDir);
                                    },
                                    Ok(Some(value)) => {
                                        let cleaned = Self::replace(value, exfat_compat);
                                        path.append(cleaned.as_str());
                                    },
                                }
                            },
                        }
                        j = j + 1;
                    }
                    push_char(&mut path, '/');
                    proof {
                        assert(spec_build_dir_from(dseq, m as int, acc0, md, exfat_compat)
                            is Ok ==> true);
                        assert(spec_build_from(segs, i as int, acc0, md, exfat_compat)
                            == spec_build_from(segs, i + 1, path@, md, exfat_compat));
                    }
                },
                FsComponent::File(file) => {
                    let ghost fseq = file.deep_view();
                    let ghost acc0 = path@;
                    proof {
                        assert(segs[i as int] == SpecFs::File(fseq));
                    }
                    let m = file.len();
                    let mut required_founds: usize = 0;
                    let mut j: usize = 0;
                    while j < m
                        invariant
                            0 <= j <= m,
                            m == file@.len(),
                            file.deep_view() == fseq,
                            md == metadata@,
                            segs == self@,
                            0 <= i < segs.len(),
                            segs[i as int] == SpecFs::File(fseq),
                            required_founds <= j,
                            spec_build_path(segs, md, exfat_compat) == spec_build_from(
                                segs,
                                i as int,
                                acc0,
                                md,
                                exfat_compat,
                            ),
                            spec_build_file_from(fseq, 0, acc0, 0, md, exfat_compat)
                                == spec_build_file_from(
                                fseq,
                                j as int,
                                path@,
                                required_founds as nat,
                                md,
                                exfat_compat,
                            ),
                        decreases m - j,
                    {
                        let comp = &file[j];
                        proof {
                            assert(fseq[j as int] == file@[j as int].deep_view());
                        }
                        match comp {
                            BasicComponent::Literal(s) => {
                                proof {
                                    assert(fseq[j as int] == SpecBasic::Literal(s@));
                                }
                                path.append(s.as_str());
                            },
                            BasicComponent::Placeholder(p) => {
                                proof {
                                    assert(fseq[j as int] == SpecBasic::Placeholder(*p));
                                }
                                if !p.is_optional() && !p.is_tag(Tag::Ext) {
                                    required_founds = required_founds + 1;
                                }
                                match Self::get_from_metadata(metadata, *p) {
                                    Err(e) => {
                                        proof {
                                            assert(spec_build_path(segs, md, exfat_compat)
                                                == Err::<Seq<char>, SpecError>(e@));
                                        }
                                        return Err(e);
                                    },
                                    Ok(None) => {},
                                    Ok(Some(value)) => {
                                        let cleaned = Self::replace(value, exfat_compat);
                                        path.append(cleaned.as_str());
                                    },
                                }
                            },
                        }
                        j = j + 1;
                    }
                    if required_founds < 1 {
                        proof {
                            assert(spec_build_file_from(
                                fseq,
                                m as int,
                                path@,
                                required_founds as nat,
                                md,
                                exfat_compat,
                            ) == Err::<Seq<char>, SpecError>(SpecError::RequiredInFile));
                            assert(spec_build_path(segs, md, exfat_compat) == Err::<
                                Seq<char>,
                                SpecError,
                            >(SpecError::RequiredInFile));
                        }
                        return Err(MusoError::RequiredInFile);
                    }
                    proof {
                        assert(spec_build_from(segs, i as int, acc0, md, exfat_compat)
                            == spec_build_from(segs, i + 1, path@, md, exfat_compat));
                    }
                },
            }
            i = i + 1;
        }
        Ok(path)
    }
}

/// A directory segment of literal text alone always builds: it can raise
/// neither `OptionalInDir` nor `RequiredInFile` nor any other error, whatever
/// the metadata record.
pub proof fn lemma_literal_dir_never_fails(
    seg: Seq<SpecBasic>,
    j: int,
    acc: Seq<char>,
    md: SpecMetadata,
    exfat: bool,
)
    requires
        forall|l: int| 0 <= l < seg.len() ==> seg[l] is Literal,
    ensures
        spec_build_dir_from(seg, j, acc, md, exfat) is Ok,
    decreases seg.len() - j,
{
    if 0 <= j && j < seg.len() {
        match seg[j] {
            SpecBasic::Literal(s) => {
                lemma_literal_dir_never_fails(seg, j + 1, acc + s, md, exfat);
            },
            SpecBasic::Placeholder(_) => {},
        }
    }
}

/// A file segment with no placeholder that is required and other than `ext`
/// always ends with `RequiredInFile`, whatever the metadata record: optional
/// and `ext` placeholders never fail, literals never count.
pub proof fn lemma_file_without_required_fails(
    seg: Seq<SpecBasic>,
    j: int,
    acc: Seq<char>,
    md: SpecMetadata,
    exfat: bool,
)
    requires
        forall|l: int|
            0 <= l < seg.len() ==> match #[trigger] seg[l] {
                SpecBasic::Placeholder(p) => p.spec_is_optional() || p.spec_tag() is Ext,
                SpecBasic::Literal(_) => true,
            },
    ensures
        spec_build_file_from(seg, j, acc, 0, md, exfat) == Err::<Seq<char>, SpecError>(
            SpecError::RequiredInFile,
        ),
    decreases seg.len() - j,
{
    if 0 <= j && j < seg.len() {
        match seg[j] {
            SpecBasic::Literal(s) => {
                lemma_file_without_required_fails(seg, j + 1, acc + s, md, exfat);
            },
            SpecBasic::Placeholder(p) => {
                match spec_resolve(md, p) {
                    Err(_) => {
                        assert(false);
                    },
                    Ok(None) => {
                        lemma_file_without_required_fails(seg, j + 1, acc, md, exfat);
                    },
                    Ok(Some(v)) => {
                        lemma_file_without_required_fails(
                            seg,
                            j + 1,
                            acc + spec_sanitize(v, exfat),
                            md,
                            exfat,
                        );
                    },
                }
            },
        }
    }
}

/// A template whose last segment is a file segment with no required non-`ext`
/// placeholder never builds, whatever the metadata record: either an earlier
/// segment fails, or the file segment ends with `RequiredInFile`.
pub proof fn lemma_build_needs_required_placeholder(
    segs: Seq<SpecFs>,
    i: int,
    acc: Seq<char>,
    md: SpecMetadata,
    exfat: bool,
)
    requires
        0 <= i < segs.len(),
        segs.last() matches SpecFs::File(seg) && forall|l: int|
            0 <= l < seg.len() ==> match #[trigger] seg[l] {
                SpecBasic::Placeholder(p) => p.spec_is_optional() || p.spec_tag() is Ext,
                SpecBasic::Literal(_) => true,
            },
    ensures
        spec_build_from(segs, i, acc, md, exfat) is Err,
    decreases segs.len() - i,
{
    let step = match segs[i] {
        SpecFs::Dir(seg) => spec_build_dir_from(seg, 0, acc, md, exfat),
        SpecFs::File(seg) => spec_build_file_from(seg, 0, acc, 0, md, exfat),
    };
    if i == segs.len() - 1 {
        let seg = segs.last()->File_0;
        lemma_file_without_required_fails(seg, 0, acc, md, exfat);
    } else {
        match step {
            Err(_) => {},
            Ok(acc2) => {
                lemma_build_needs_required_placeholder(segs, i + 1, acc2, md, exfat);
            },
        }
    }
}

} // verus!
