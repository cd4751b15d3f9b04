//! Patterns: a compiled regular expression paired with a replacement
//! template, and the sequential first-match substitution that turns a source
//! file name into a destination name.

use vstd::prelude::*;

verus! {

/// Whether the regex crate accepts `pattern` as a valid regular expression.
pub uninterp spec fn re_valid(pattern: Seq<char>) -> bool;

/// Whether the regular expression compiled from `pattern` matches anywhere in
/// `text`.
pub uninterp spec fn re_found(pattern: Seq<char>, text: Seq<char>) -> bool;

/// The result of replacing the leftmost match of `pattern` in `text` with the
/// instantiated template `replacement`.
pub uninterp spec fn re_replace_first(
    pattern: Seq<char>,
    replacement: Seq<char>,
    text: Seq<char>,
) -> Seq<char>;

#[verifier::external_type_specification]
#[verifier::external_body]
pub struct ExRegex(regex::Regex);

/// What a [`Pattern`] holds, mathematically: the source text its matcher was
/// compiled from, and its replacement template.
pub ghost struct PatternView {
    pub source: Seq<char>,
    pub replacement: Seq<char>,
}

/// An ordered `(matcher, replacement)` pair.  The matcher is a compiled
/// regular expression; the replacement template may reference its capture
/// groups.  Values are only built by [`Pattern::new`], so the matcher is
/// always the one compiled from the stored source text.
pub struct Pattern {
    regex: regex::Regex,
    source: String,
    replacement: String,
}

impl View for Pattern {
    type V = PatternView;

    closed spec fn view(&self) -> PatternView {
        PatternView { source: self.source@, replacement: self.replacement@ }
    }
}

/// The views of a sequence of patterns.
pub open spec fn pattern_views(ps: Seq<Pattern>) -> Seq<PatternView> {
    ps.map_values(|p: Pattern| p@)
}

impl Pattern {
    /// Relies on `regex::Regex::new`: compiling a pattern succeeds exactly
    /// when the pattern is a valid regular expression (within the default
    /// size limit); success and the compiled matcher depend on the pattern
    /// text alone.  On failure the regex crate's error message is returned.
    #[verifier::external_body]
    pub fn new(source: &str, replacement: &str) -> (r: Result<Pattern, String>)
        ensures
            r is Ok <==> re_valid(source@),
            r matches Ok(p) ==> p@ == (PatternView {
                source: source@,
                replacement: replacement@,
            }),
    {
        match regex::Regex::new(source) {
            Ok(regex) => Ok(Pattern {
                regex,
                source: String::from(source),
                replacement: String::from(replacement),
            }),
            Err(e) => Err(format!("{}", e)),
        }
    }

    /// Relies on `regex::Regex::is_match`: true exactly when the compiled
    /// pattern matches anywhere in `text`; a function of the pattern source
    /// and the text alone.
    #[verifier::external_body]
    pub(crate) fn is_match(&self, text: &str) -> (r: bool)
        ensures
            r == re_found(self@.source, text@),
    {
        self.regex.is_match(text)
    }

    /// Relies on `regex::Regex::replace`: replaces only the leftmost match of
    /// the pattern in `text` with the instantiated replacement template; a
    /// function of the pattern source, the template and the text alone.
    #[verifier::external_body]
    pub(crate) fn replace_first(&self, text: &str) -> (r: String)
        ensures
            r@ == re_replace_first(self@.source, self@.replacement, text@),
    {
        self.regex.replace(text, self.replacement.as_str()).into_owned()
    }

    /// The source text the matcher was compiled from.
    pub fn source(&self) -> (r: &String)
        ensures
            r@ == self@.source,
    {
        &self.source
    }

    /// The replacement template.
    pub fn replacement(&self) -> (r: &String)
        ensures
            r@ == self@.replacement,
    {
        &self.replacement
    }
}

/// One step of the fold: if the pattern matches anywhere in `name`, its first
/// match is substituted; otherwise the name passes through unchanged.
pub open spec fn spec_apply_pattern(p: PatternView, name: Seq<char>) -> Seq<char> {
    if re_found(p.source, name) {
        re_replace_first(p.source, p.replacement, name)
    } else {
        name
    }
}

/// The destination name: every pattern applied in list order, each operating
/// on the output of the previous ones.
pub open spec fn spec_apply_patterns(ps: Seq<PatternView>, name: Seq<char>) -> Seq<char>
    decreases ps.len(),
{
    if ps.len() == 0 {
        name
    } else {
        spec_apply_pattern(ps.last(), spec_apply_patterns(ps.drop_last(), name))
    }
}

/// Applies every pattern in list order to `name`, substituting only the first
/// occurrence per pattern, and returns the resulting destination name.
pub fn apply_patterns(patterns: &Vec<Pattern>, name: &String) -> (r: String)
    ensures
        r@ == spec_apply_patterns(pattern_views(patterns@), name@),
{
    let mut dst: String = name.clone();
    let mut i: usize = 0;
    while i < patterns.len()
        invariant
            i <= patterns@.len(),
            dst@ == spec_apply_patterns(pattern_views(patterns@).take(i as int), name@),
        decreases patterns@.len() - i,
    {
        let p = &patterns[i];
        if p.is_match(dst.as_str()) {
            dst = p.replace_first(dst.as_str());
        }
        proof {
            let views = pattern_views(patterns@);
            assert(views.take(i + 1).drop_last() =~= views.take(i as int));
            assert(views.take(i + 1).last() == views[i as int]);
        }
        i = i + 1;
    }
    proof {
        assert(pattern_views(patterns@).take(patterns@.len() as int) =~= pattern_views(
            patterns@,
        ));
    }
    dst
}

/// Re-running the builder on the same source name and the same pattern list
/// always yields the same destination name: the fold is a function of the
/// name and the pattern list alone, so any two results agree.
pub proof fn lemma_destination_deterministic(
    ps: Seq<PatternView>,
    name: Seq<char>,
    d1: Seq<char>,
    d2: Seq<char>,
)
    requires
        d1 == spec_apply_patterns(ps, name),
        d2 == spec_apply_patterns(ps, name),
    ensures
        d1 == d2,
{
}

/// If no pattern in the list matches anywhere in `name`, the fold leaves the
/// name unchanged: the resulting rename is a no-op.
pub proof fn lemma_no_match_is_identity(ps: Seq<PatternView>, name: Seq<char>)
    requires
        forall|i: int| 0 <= i < ps.len() ==> !re_found(ps[i].source, name),
    ensures
        spec_apply_patterns(ps, name) == name,
    decreases ps.len(),
{
    if ps.len() > 0 {
        assert(forall|i: int|
            0 <= i < ps.drop_last().len() ==> ps.drop_last()[i] == ps[i]);
        lemma_no_match_is_identity(ps.drop_last(), name);
        assert(!re_found(ps.last().source, name));
    }
}

} // verus!
