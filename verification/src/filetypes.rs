//! The set of recognised file extensions, parsed from a raw text.

use vstd::prelude::*;
use vstd::string::*;
use crate::text::{
    lower_seq, upper_seq, tokens_of, seq_contains_char, has_double_slash, string_views,
    to_lower_text, to_upper_text, tokenize, contains_char, contains_double_slash,
};

verus! {

/// The built-in list of recognised filetypes, used when no alternate
/// list is supplied.
pub const DEFAULT_FILETYPES: &'static str =
    ".jpg .jpeg .png .mp4 .dng .gif .nef .bmp .jpe .jif .jfif .jfi .webp .tiff .tif .psd .raw .arw .cr2 .nrw .k25 .dib .heif .heic .ind .indd .indt .jp2 .j2k .jpf .jpx .jpm .mj2 .svg .svgz .ai .eps .pdf .xcf .cdr .sr2 .orf .bin .afphoto .mkv .mov";

/// Whether a token of the filetype source is kept as a member: it must
/// be dot-prefixed and hold no hash mark; the strict parse path also
/// drops tokens holding two adjacent slashes.
pub open spec fn keep_token(t: Seq<char>, strict: bool) -> bool {
    &&& t.len() > 0
    &&& t[0] == '.'
    &&& !seq_contains_char(t, '#')
    &&& (strict ==> !has_double_slash(t))
}

/// The members parsed out of a raw filetype text: the text is rendered
/// in lowercase and in uppercase, each rendering is split on
/// whitespace, and the qualifying tokens of both are kept, so each
/// recognised extension is present in both case renderings.
pub open spec fn spec_members(raw: Seq<char>, strict: bool) -> Seq<Seq<char>> {
    (tokens_of(lower_seq(raw)) + tokens_of(upper_seq(raw))).filter(
        |t: Seq<char>| keep_token(t, strict),
    )
}

/// The set of recognised file extensions for one run.  Each member is
/// dot-prefixed; membership is an exact string comparison, and the two
/// case renderings unioned at parse time make matching effectively
/// case-insensitive.
pub struct FiletypeSet {
    members: Vec<String>,
}

impl View for FiletypeSet {
    type V = Seq<Seq<char>>;

    closed spec fn view(&self) -> Seq<Seq<char>> {
        string_views(self.members@)
    }
}

/// Decides whether one token qualifies as a member.
fn token_kept(t: &String, strict: bool) -> (r: bool)
    ensures
        r == keep_token(t@, strict),
{
    let n = t.as_str().unicode_len();
    if n == 0 {
        return false;
    }
    if t.as_str().get_char(0) != '.' {
        return false;
    }
    if contains_char(t.as_str(), '#') {
        return false;
    }
    if strict && contains_double_slash(t.as_str()) {
        return false;
    }
    true
}

impl FiletypeSet {
    /// Parses a raw filetype text into a set, keeping each qualifying
    /// token of the joined lowercase and uppercase renderings.
    fn parse(raw: &str, strict: bool) -> (r: FiletypeSet)
        ensures
            r@ == spec_members(raw@, strict),
    {
        let lower = to_lower_text(raw);
        let upper = to_upper_text(raw);
        let mut tokens = tokenize(lower.as_str());
        let upper_tokens = tokenize(upper.as_str());
        let ghost lower_views = string_views(tokens@);
        let ghost upper_views = string_views(upper_tokens@);
        let mut j: usize = 0;
        while j < upper_tokens.len()
            invariant
                j <= upper_tokens@.len(),
                upper_views == string_views(upper_tokens@),
                string_views(tokens@) == lower_views + upper_views.subrange(0, j as int),
            decreases upper_tokens@.len() - j,
        {
            let t = upper_tokens[j].clone();
            let ghost prev = tokens@;
            tokens.push(t);
            j += 1;
            assert(string_views(tokens@) =~= string_views(prev).push(upper_views[j - 1]));
            assert(string_views(tokens@) =~= lower_views + upper_views.subrange(0, j as int));
        }
        assert(upper_views.subrange(0, upper_tokens@.len() as int) =~= upper_views);
        assert(string_views(tokens@) =~= lower_views + upper_views);
        let ghost tokviews = string_views(tokens@);
        let mut members: Vec<String> = Vec::new();
        let mut i: usize = 0;
        while i < tokens.len()
            invariant
                i <= tokens.len(),
                tokviews == string_views(tokens@),
                tokviews == tokens_of(lower_seq(raw@)) + tokens_of(upper_seq(raw@)),
                string_views(members@) =~= tokviews.subrange(0, i as int).filter(
                    |t: Seq<char>| keep_token(t, strict),
                ),
            decreases tokens.len() - i,
        {
            let t = &tokens[i];
            proof {
                lemma_keep_filter_step(tokviews, strict, i as int);
            }
            if token_kept(t, strict) {
                let ghost prev = members@;
                members.push(t.clone());
                assert(string_views(members@) =~= string_views(prev) + seq![t@]);
            }
            i += 1;
        }
        proof {
            assert(tokviews.subrange(0, tokens@.len() as int) =~= tokviews);
        }
        FiletypeSet { members }
    }

    /// Parses the strict (external-file) filetype source: tokens with
    /// two adjacent slashes are excluded besides the hash-mark rule.
    pub fn parse_strict(raw: &str) -> (r: FiletypeSet)
        ensures
            r@ == spec_members(raw@, true),
    {
        FiletypeSet::parse(raw, true)
    }

    /// Parses the built-in default filetype list, which omits the
    /// double-slash exclusion.
    pub fn parse_default(raw: &str) -> (r: FiletypeSet)
        ensures
            r@ == spec_members(raw@, false),
    {
        FiletypeSet::parse(raw, false)
    }

    /// Exact-comparison membership test for a dot-prefixed extension.
    pub fn contains(&self, ext: &String) -> (r: bool)
        ensures
            r == self@.contains(ext@),
    {
        let mut i: usize = 0;
        while i < self.members.len()
            invariant
                i <= self.members@.len(),
                forall|k: int| 0 <= k < i ==> string_views(self.members@)[k] != ext@,
            decreases self.members@.len() - i,
        {
            if self.members[i] == *ext {
                assert(self@[i as int] == ext@);
                return true;
            }
            i += 1;
        }
        assert(forall|k: int| 0 <= k < self@.len() ==> self@[k] != ext@);
        false
    }

    /// How many members the set holds.
    pub fn len(&self) -> (r: usize)
        ensures
            r == self@.len(),
    {
        self.members.len()
    }
}

/// One step of filtering a token prefix by the keep rule.
proof fn lemma_keep_filter_step(s: Seq<Seq<char>>, strict: bool, i: int)
    requires
        0 <= i < s.len(),
    ensures
        s.subrange(0, i + 1).filter(|t: Seq<char>| keep_token(t, strict)) == s.subrange(
            0,
            i,
        ).filter(|t: Seq<char>| keep_token(t, strict)) + (if keep_token(s[i], strict) {
            seq![s[i]]
        } else {
            Seq::<Seq<char>>::empty()
        }),
{
    reveal(Seq::filter);
    let pred = |t: Seq<char>| keep_token(t, strict);
    let pre = s.subrange(0, i + 1);
    assert(pre.drop_last() =~= s.subrange(0, i));
    assert(pre.last() == s[i]);
    if pred(s[i]) {
        assert(pre.filter(pred) =~= s.subrange(0, i).filter(pred) + seq![s[i]]);
    } else {
        assert(pre.filter(pred) =~= s.subrange(0, i).filter(pred) + Seq::<Seq<char>>::empty());
    }
}

} // verus!
