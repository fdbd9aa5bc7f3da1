//! The template grammar: a format string is one or more components, each a
//! maximal run of literal text not containing `{`, or a `{...}` placeholder.
//! Inside braces stands one of the six tag names, for `disc`/`disk`/`track`
//! optionally `:<digits>` (a leading width read as an 8-bit integer), and
//! optionally a trailing `?` marking the placeholder optional (not after
//! `ext`).

use vstd::prelude::*;

use crate::error::MusoError;
use crate::error::SpecError;
use crate::strutil::chars_of;
use crate::strutil::is_digit;
use crate::strutil::digit_val;
use crate::strutil::push_char;
use crate::strutil::spec_digit_run;
use crate::strutil::spec_digit_val;
use crate::strutil::spec_digits_value;
use crate::strutil::spec_is_digit;

verus! {

/// One of the six metadata fields a placeholder may reference. `Disc` and
/// `Track` carry the configured leading width (0 means no padding).
#[derive(Debug, Copy, Clone, PartialEq, Eq, Structural)]
pub enum Tag {
    Artist,
    Album,
    Disc { leading: u8 },
    Track { leading: u8 },
    Title,
    Ext,
}

/// A tag together with its requiredness.
#[derive(Debug, Copy, Clone, PartialEq, Eq, Structural)]
pub enum Placeholder {
    Required(Tag),
    Optional(Tag),
}

impl Placeholder {
    /// The tag under either requiredness.
    pub open spec fn spec_tag(self) -> Tag {
        match self {
            Placeholder::Required(t) => t,
            Placeholder::Optional(t) => t,
        }
    }

    /// Whether this placeholder is marked optional.
    pub open spec fn spec_is_optional(self) -> bool {
        self matches Placeholder::Optional(_)
    }

    /// Whether this placeholder is marked optional.
    pub fn is_optional(&self) -> (r: bool)
        ensures
            r == self.spec_is_optional(),
    {
        matches!(self, Placeholder::Optional(_))
    }

    /// Whether this placeholder references exactly `tag`.
    pub fn is_tag(&self, tag: Tag) -> (r: bool)
        ensures
            r == (self.spec_tag() == tag),
    {
        match self {
            Placeholder::Required(other) => tag == *other,
            Placeholder::Optional(other) => tag == *other,
        }
    }

    /// The tag under either requiredness.
    pub fn into_tag(self) -> (r: Tag)
        ensures
            r == self.spec_tag(),
    {
        match self {
            Placeholder::Required(tag) => tag,
            Placeholder::Optional(tag) => tag,
        }
    }
}

/// Spec-level shape of a [`BasicComponent`].
pub enum SpecBasic {
    Literal(Seq<char>),
    Placeholder(Placeholder),
}

/// A run of literal text or a placeholder, before segmentation.
#[derive(Debug, Clone, PartialEq)]
pub enum BasicComponent {
    Literal(String),
    Placeholder(Placeholder),
}

impl View for BasicComponent {
    type V = SpecBasic;

    open spec fn view(&self) -> SpecBasic {
        match self {
            BasicComponent::Literal(s) => SpecBasic::Literal(s@),
            BasicComponent::Placeholder(p) => SpecBasic::Placeholder(*p),
        }
    }
}

impl DeepView for BasicComponent {
    type V = SpecBasic;

    open spec fn deep_view(&self) -> SpecBasic {
        self.view()
    }
}

/// Spec-level shape of an [`FsComponent`].
pub enum SpecFs {
    Dir(Seq<SpecBasic>),
    File(Seq<SpecBasic>),
}

/// One filesystem segment of a compiled template: a directory level or the
/// trailing file name.
#[derive(Debug, Clone, PartialEq)]
pub enum FsComponent {
    Dir(Vec<BasicComponent>),
    File(Vec<BasicComponent>),
}

impl View for FsComponent {
    type V = SpecFs;

    open spec fn view(&self) -> SpecFs {
        match self {
            FsComponent::Dir(v) => SpecFs::Dir(v.deep_view()),
            FsComponent::File(v) => SpecFs::File(v.deep_view()),
        }
    }
}

impl DeepView for FsComponent {
    type V = SpecFs;

    open spec fn deep_view(&self) -> SpecFs {
        self.view()
    }
}

/// Recognizes one of the six tag names at position `i`, yielding the position
/// after it and the tag (widths default to 0).
pub open spec fn spec_tag_ident(s: Seq<char>, i: int) -> Option<(int, Tag)> {
    if i + 3 <= s.len() && s[i] == 'e' && s[i + 1] == 'x' && s[i + 2] == 't' {
        Some((i + 3, Tag::Ext))
    } else if i + 4 <= s.len() && s[i] == 'd' && s[i + 1] == 'i' && s[i + 2] == 's' && s[i + 3]
        == 'c' {
        Some((i + 4, Tag::Disc { leading: 0 }))
    } else if i + 4 <= s.len() && s[i] == 'd' && s[i + 1] == 'i' && s[i + 2] == 's' && s[i + 3]
        == 'k' {
        Some((i + 4, Tag::Disc { leading: 0 }))
    } else if i + 5 <= s.len() && s[i] == 't' && s[i + 1] == 'r' && s[i + 2] == 'a' && s[i + 3]
        == 'c' && s[i + 4] == 'k' {
        Some((i + 5, Tag::Track { leading: 0 }))
    } else if i + 5 <= s.len() && s[i] == 't' && s[i + 1] == 'i' && s[i + 2] == 't' && s[i + 3]
        == 'l' && s[i + 4] == 'e' {
        Some((i + 5, Tag::Title))
    } else if i + 5 <= s.len() && s[i] == 'a' && s[i + 1] == 'l' && s[i + 2] == 'b' && s[i + 3]
        == 'u' && s[i + 4] == 'm' {
        Some((i + 5, Tag::Album))
    } else if i + 6 <= s.len() && s[i] == 'a' && s[i + 1] == 'r' && s[i + 2] == 't' && s[i + 3]
        == 'i' && s[i + 4] == 's' && s[i + 5] == 't' {
        Some((i + 6, Tag::Artist))
    } else {
        None
    }
}

/// Recognizes an optional `:<digits>` width annotation at position `i`.
/// Without one, nothing is consumed and the width is 0; a width above 255 is
/// malformed (`None`).
pub open spec fn spec_tag_leading(s: Seq<char>, i: int) -> Option<(int, u8)> {
    if 0 <= i && i < s.len() && s[i] == ':' && spec_digit_run(s, i + 1) > i + 1 {
        let j = spec_digit_run(s, i + 1);
        let v = spec_digits_value(s, i + 1, j);
        if v <= 255 {
            Some((j, v as u8))
        } else {
            None
        }
    } else {
        Some((i, 0))
    }
}

/// Recognizes a tag name with its width annotation (only `disc`/`disk` and
/// `track` take one).
pub open spec fn spec_tag_complete(s: Seq<char>, i: int) -> Option<(int, Tag)> {
    match spec_tag_ident(s, i) {
        None => None,
        Some((j, t)) => match t {
            Tag::Disc { .. } => match spec_tag_leading(s, j) {
                None => None,
                Some((k, w)) => Some((k, Tag::Disc { leading: w })),
            },
            Tag::Track { .. } => match spec_tag_leading(s, j) {
                None => None,
                Some((k, w)) => Some((k, Tag::Track { leading: w })),
            },
            _ => Some((j, t)),
        },
    }
}

/// Recognizes a complete placeholder body: a tag, then an optional `?`
/// (`ext` takes none and is always required).
pub open spec fn spec_placeholder(s: Seq<char>, i: int) -> Option<(int, Placeholder)> {
    match spec_tag_complete(s, i) {
        None => None,
        Some((j, t)) => if t is Ext {
            Some((j, Placeholder::Required(t)))
        } else if 0 <= j && j < s.len() && s[j] == '?' {
            Some((j + 1, Placeholder::Optional(t)))
        } else {
            Some((j, Placeholder::Required(t)))
        },
    }
}

/// The end of the maximal run of characters other than `{` starting at `i`.
pub open spec fn spec_till_brace(s: Seq<char>, i: int) -> int
    decreases s.len() - i,
{
    if 0 <= i && i < s.len() && s[i] != '{' {
        spec_till_brace(s, i + 1)
    } else {
        i
    }
}

/// Recognizes one component at position `i`: a nonempty literal run up to the
/// next `{`, or a braced placeholder.
pub open spec fn spec_component(s: Seq<char>, i: int) -> Option<(int, SpecBasic)> {
    if i < 0 || i >= s.len() {
        None
    } else if s[i] != '{' {
        Some((spec_till_brace(s, i), SpecBasic::Literal(s.subrange(i, spec_till_brace(s, i)))))
    } else {
        match spec_placeholder(s, i + 1) {
            None => None,
            Some((j, p)) => if 0 <= j && j < s.len() && s[j] == '}' {
                Some((j + 1, SpecBasic::Placeholder(p)))
            } else {
                None
            },
        }
    }
}

/// Recognizes as many components as possible from position `i`, returning
/// where recognition stopped and what was recognized.
pub open spec fn spec_components_from(s: Seq<char>, i: int) -> (int, Seq<SpecBasic>)
    decreases s.len() - i,
{
    match spec_component(s, i) {
        None => (i, Seq::empty()),
        Some((j, c)) => if i < j <= s.len() {
            let (k, rest) = spec_components_from(s, j);
            (k, seq![c] + rest)
        } else {
            (i, Seq::empty())
        },
    }
}

/// A format string parses iff its components cover the whole string and there
/// is at least one of them.
pub open spec fn spec_parse_components(s: Seq<char>) -> Option<Seq<SpecBasic>> {
    let (k, cs) = spec_components_from(s, 0);
    if k == s.len() && cs.len() >= 1 {
        Some(cs)
    } else {
        None
    }
}

fn tag_ident_at(v: &Vec<char>, i: usize) -> (r: Option<(usize, Tag)>)
    requires
        i <= v@.len(),
    ensures
        match r {
            Some(jt) => spec_tag_ident(v@, i as int) == Some((jt.0 as int, jt.1)) && jt.0
                <= v@.len(),
            None => spec_tag_ident(v@, i as int) is None,
        },
{
    let n = v.len();
    let rem = n - i;
    if rem >= 3 && v[i] == 'e' && v[i + 1] == 'x' && v[i + 2] == 't' {
        Some((i + 3, Tag::Ext))
    } else if rem >= 4 && v[i] == 'd' && v[i + 1] == 'i' && v[i + 2] == 's' && v[i + 3] == 'c' {
        Some((i + 4, Tag::Disc { leading: 0 }))
    } else if rem >= 4 && v[i] == 'd' && v[i + 1] == 'i' && v[i + 2] == 's' && v[i + 3] == 'k' {
        Some((i + 4, Tag::Disc { leading: 0 }))
    } else if rem >= 5 && v[i] == 't' && v[i + 1] == 'r' && v[i + 2] == 'a' && v[i + 3] == 'c'
        && v[i + 4] == 'k' {
        Some((i + 5, Tag::Track { leading: 0 }))
    } else if rem >= 5 && v[i] == 't' && v[i + 1] == 'i' && v[i + 2] == 't' && v[i + 3] == 'l'
        && v[i + 4] == 'e' {
        Some((i + 5, Tag::Title))
    } else if rem >= 5 && v[i] == 'a' && v[i + 1] == 'l' && v[i + 2] == 'b' && v[i + 3] == 'u'
        && v[i + 4] == 'm' {
        Some((i + 5, Tag::Album))
    } else if rem >= 6 && v[i] == 'a' && v[i + 1] == 'r' && v[i + 2] == 't' && v[i + 3] == 'i'
        && v[i + 4] == 's' && v[i + 5] == 't' {
        Some((i + 6, Tag::Artist))
    } else {
        None
    }
}

fn tag_leading_at(v: &Vec<char>, i: usize) -> (r: Option<(usize, u8)>)
    requires
        i <= v@.len(),
    ensures
        match r {
            Some(jw) => spec_tag_leading(v@, i as int) == Some((jw.0 as int, jw.1)) && jw.0
                <= v@.len(),
            None => spec_tag_leading(v@, i as int) is None,
        },
{
    let n = v.len();
    if i < n && v[i] == ':' && i + 1 < n && is_digit(v[i + 1]) {
        // find the end of the digit run and its value, clamped above 255
        let mut j: usize = i + 1;
        let mut acc: u32 = 0;
        while j < n && is_digit(v[j])
            invariant
                i + 1 <= j <= n,
                n == v@.len(),
                spec_digit_run(v@, i + 1) == spec_digit_run(v@, j as int),
                if spec_digits_value(v@, i + 1, j as int) <= 255 {
                    acc == spec_digits_value(v@, i + 1, j as int)
                } else {
                    acc == 256
                },
            decreases n - j,
        {
            let d = digit_val(v[j]);
            proof {
                let old_v = spec_digits_value(v@, i + 1, j as int);
                assert(spec_digits_value(v@, i + 1, j + 1) == old_v * 10 + spec_digit_val(
                    v@[j as int],
                ));
                if old_v > 255 {
                    assert(old_v * 10 >= old_v);
                }
            }
            if acc <= 255 {
                acc = acc * 10 + d;
                if acc > 255 {
                    acc = 256;
                }
            }
            j = j + 1;
        }
        proof {
            assert(spec_digit_run(v@, j as int) == j);
            assert(spec_digit_run(v@, i + 1) > i + 1);
        }
        if acc <= 255 {
            Some((j, acc as u8))
        } else {
            None
        }
    } else {
        proof {
            if i < v@.len() && v@[i as int] == ':' {
                assert(spec_digit_run(v@, i + 1) == i + 1);
            }
        }
        Some((i, 0))
    }
}

fn tag_complete_at(v: &Vec<char>, i: usize) -> (r: Option<(usize, Tag)>)
    requires
        i <= v@.len(),
    ensures
        match r {
            Some(jt) => spec_tag_complete(v@, i as int) == Some((jt.0 as int, jt.1)) && jt.0
                <= v@.len(),
            None => spec_tag_complete(v@, i as int) is None,
        },
{
    match tag_ident_at(v, i) {
        None => None,
        Some((j, t)) => match t {
            Tag::Disc { .. } => match tag_leading_at(v, j) {
                None => None,
                Some((k, w)) => Some((k, Tag::Disc { leading: w })),
            },
            Tag::Track { .. } => match tag_leading_at(v, j) {
                None => None,
                Some((k, w)) => Some((k, Tag::Track { leading: w })),
            },
            _ => Some((j, t)),
        },
    }
}

fn placeholder_at(v: &Vec<char>, i: usize) -> (r: Option<(usize, Placeholder)>)
    requires
        i <= v@.len(),
    ensures
        match r {
            Some(jp) => spec_placeholder(v@, i as int) == Some((jp.0 as int, jp.1)) && jp.0
                <= v@.len(),
            None => spec_placeholder(v@, i as int) is None,
        },
{
    match tag_complete_at(v, i) {
        None => None,
        Some((j, t)) => match t {
            Tag::Ext => Some((j, Placeholder::Required(t))),
            _ => {
                if j < v.len() && v[j] == '?' {
                    Some((j + 1, Placeholder::Optional(t)))
                } else {
                    Some((j, Placeholder::Required(t)))
                }
            },
        },
    }
}

fn component_at(v: &Vec<char>, i: usize) -> (r: Option<(usize, BasicComponent)>)
    requires
        i <= v@.len(),
    ensures
        match r {
            Some(jc) => spec_component(v@, i as int) == Some((jc.0 as int, jc.1@)) && i < jc.0
                <= v@.len(),
            None => spec_component(v@, i as int) is None,
        },
{
    let n = v.len();
    if i >= n {
        return None;
    }
    if v[i] != '{' {
        let mut j: usize = i;
        while j < n && v[j] != '{'
            invariant
                i <= j <= n,
                n == v@.len(),
                spec_till_brace(v@, i as int) == spec_till_brace(v@, j as int),
            decreases n - j,
        {
            j = j + 1;
        }
        proof {
            assert(spec_till_brace(v@, j as int) == j);
        }
        let mut lit = String::new();
        let mut k: usize = i;
        while k < j
            invariant
                i <= k <= j <= n,
                n == v@.len(),
                lit@ == v@.subrange(i as int, k as int),
            decreases j - k,
        {
            push_char(&mut lit, v[k]);
            proof {
                assert(lit@ =~= v@.subrange(i as int, k + 1));
            }
            k = k + 1;
        }
        Some((j, BasicComponent::Literal(lit)))
    } else {
        match placeholder_at(v, i + 1) {
            None => None,
            Some((j, p)) => {
                if j < n && v[j] == '}' {
                    Some((j + 1, BasicComponent::Placeholder(p)))
                } else {
                    None
                }
            },
        }
    }
}

fn components_at(v: &Vec<char>) -> (r: (usize, Vec<BasicComponent>))
    ensures
        spec_components_from(v@, 0) == (r.0 as int, r.1.deep_view()),
        r.0 <= v@.len(),
{
    let mut k: usize = 0;
    let mut cs: Vec<BasicComponent> = Vec::new();
    let mut more = true;
    while more
        invariant
            0 <= k <= v@.len(),
            spec_components_from(v@, 0).0 == spec_components_from(v@, k as int).0,
            spec_components_from(v@, 0).1 == cs.deep_view() + spec_components_from(
                v@,
                k as int,
            ).1,
            !more ==> spec_component(v@, k as int) is None,
        decreases v@.len() - k + (if more {
            1int
        } else {
            0int
        }),
    {
        let ghost pre = cs.deep_view();
        match component_at(v, k) {
            None => {
                more = false;
            },
            Some((k2, c)) => {
                proof {
                    let (kk, rest) = spec_components_from(v@, k2 as int);
                    assert(spec_components_from(v@, k as int) == (kk, seq![c@] + rest));
                }
                cs.push(c);
                proof {
                    assert(cs.deep_view() =~= pre.push(c@));
                    assert(pre + (seq![c@] + spec_components_from(v@, k2 as int).1)
                        =~= cs.deep_view() + spec_components_from(v@, k2 as int).1);
                }
                k = k2;
            },
        }
    }
    proof {
        assert(spec_components_from(v@, k as int) == (k as int, Seq::<SpecBasic>::empty()));
        assert(cs.deep_view() + Seq::<SpecBasic>::empty() =~= cs.deep_view());
    }
    (k, cs)
}

/// Recognizes an optional `:<digits>` width at the start of `input`,
/// returning the rest of the input and the width (0 without an annotation).
/// Fails only on a width above 255.
pub fn tag_leading<'a>(input: &'a str) -> (r: Result<(&'a str, u8), MusoError>)
    ensures
        match spec_tag_leading(input@, 0) {
            Some(jw) => r matches Ok(p) && p.0@ == input@.subrange(jw.0, input@.len() as int)
                && p.1 == jw.1,
            None => r matches Err(e) && e@ is FailedToParse,
        },
{
    let v = chars_of(input);
    match tag_leading_at(&v, 0) {
        Some((j, w)) => Ok((input.substring_char(j, input.unicode_len()), w)),
        None => Err(MusoError::FailedToParse),
    }
}

/// Recognizes a tag name with its width annotation at the start of `input`,
/// returning the rest of the input and the tag.
pub fn tag_complete<'a>(input: &'a str) -> (r: Result<(&'a str, Tag), MusoError>)
    ensures
        match spec_tag_complete(input@, 0) {
            Some(jt) => r matches Ok(p) && p.0@ == input@.subrange(jt.0, input@.len() as int)
                && p.1 == jt.1,
            None => r matches Err(e) && e@ is FailedToParse,
        },
{
    let v = chars_of(input);
    match tag_complete_at(&v, 0) {
        Some((j, t)) => Ok((input.substring_char(j, input.unicode_len()), t)),
        None => Err(MusoError::FailedToParse),
    }
}

/// Recognizes a placeholder body (tag, width, optional `?`) at the start of
/// `input`, returning the rest of the input and the placeholder.
pub fn placeholder<'a>(input: &'a str) -> (r: Result<(&'a str, Placeholder), MusoError>)
    ensures
        match spec_placeholder(input@, 0) {
            Some(jp) => r matches Ok(p) && p.0@ == input@.subrange(jp.0, input@.len() as int)
                && p.1 == jp.1,
            None => r matches Err(e) && e@ is FailedToParse,
        },
{
    let v = chars_of(input);
    match placeholder_at(&v, 0) {
        Some((j, p)) => Ok((input.substring_char(j, input.unicode_len()), p)),
        None => Err(MusoError::FailedToParse),
    }
}

/// Recognizes one component (a literal run or a braced placeholder) at the
/// start of `input`, returning the rest of the input and the component.
pub fn component<'a>(input: &'a str) -> (r: Result<(&'a str, BasicComponent), MusoError>)
    ensures
        match spec_component(input@, 0) {
            Some(jc) => r matches Ok(p) && p.0@ == input@.subrange(jc.0, input@.len() as int)
                && p.1@ == jc.1,
            None => r matches Err(e) && e@ is FailedToParse,
        },
{
    let v = chars_of(input);
    match component_at(&v, 0) {
        Some((j, c)) => Ok((input.substring_char(j, input.unicode_len()), c)),
        None => Err(MusoError::FailedToParse),
    }
}

/// Recognizes as many components as possible from the start of `input`,
/// returning the unrecognized rest and the components; fails if not even one
/// component is recognized.
pub fn components<'a>(input: &'a str) -> (r: Result<(&'a str, Vec<BasicComponent>), MusoError>)
    ensures
        ({
            let (k, cs) = spec_components_from(input@, 0);
            match r {
                Ok(p) => cs.len() >= 1 && p.0@ == input@.subrange(k, input@.len() as int)
                    && p.1.deep_view() == cs,
                Err(e) => cs.len() == 0 && e@ is FailedToParse,
            }
        }),
{
    let v = chars_of(input);
    let (k, cs) = components_at(&v);
    if cs.len() == 0 {
        Err(MusoError::FailedToParse)
    } else {
        Ok((input.substring_char(k, input.unicode_len()), cs))
    }
}

/// Parses a whole format string into its flat component list: the components
/// must cover the entire input, else the string is malformed.
pub fn parse_format_string(input: &str) -> (r: Result<Vec<BasicComponent>, MusoError>)
    ensures
        match spec_parse_components(input@) {
            Some(cs) => r matches Ok(v) && v.deep_view() == cs,
            None => r matches Err(e) && e@ is FailedToParse,
        },
{
    let v = chars_of(input);
    let (k, cs) = components_at(&v);
    if k == v.len() && cs.len() > 0 {
        Ok(cs)
    } else {
        Err(MusoError::FailedToParse)
    }
}

} // verus!
