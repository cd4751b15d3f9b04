//! Command-line argument handling: the flag scanner and the parser that
//! turns a raw argument vector into a validated configuration, a help or
//! version request, or an exit reason.  Reading the process arguments and
//! printing are left to the caller.

use vstd::prelude::*;

use crate::exit::ExitCode;
use crate::pattern::Pattern;
use crate::pattern::PatternView;
use crate::pattern::pattern_views;
use crate::pattern::re_valid;
use crate::propose::string_views;

verus! {

/// Whether `s` looks like a flag: it starts with `-`.
pub open spec fn spec_is_flag(s: Seq<char>) -> bool {
    s.len() > 0 && s[0] == '-'
}

/// Whether one of `ss` is exactly `x`.
pub open spec fn spec_contains_str(ss: Seq<Seq<char>>, x: Seq<char>) -> bool {
    exists|i: int| 0 <= i < ss.len() && ss[i] == x
}

/// The first index of `raw` whose element is one of `aliases`, or `-1`.
pub open spec fn spec_find_alias(raw: Seq<Seq<char>>, aliases: Seq<Seq<char>>) -> int
    decreases raw.len(),
{
    if raw.len() == 0 {
        -1
    } else if spec_contains_str(aliases, raw[0]) {
        0
    } else {
        let r = spec_find_alias(raw.drop_first(), aliases);
        if r == -1 {
            -1
        } else {
            r + 1
        }
    }
}

/// The index of the first flag-shaped element of `s`, or `s.len()`.
pub open spec fn spec_find_flag(s: Seq<Seq<char>>) -> int
    decreases s.len(),
{
    if s.len() == 0 {
        0
    } else if spec_is_flag(s[0]) {
        0
    } else {
        1 + spec_find_flag(s.drop_first())
    }
}

/// The arguments belonging to the flag named by `aliases`: the first element
/// of `raw` that is one of `aliases`, together with everything after it up to
/// (but excluding) the next flag-shaped element; `None` when no alias occurs.
pub open spec fn spec_args_for(
    raw: Seq<Seq<char>>,
    aliases: Seq<Seq<char>>,
) -> Option<Seq<Seq<char>>> {
    let i = spec_find_alias(raw, aliases);
    if i == -1 {
        None
    } else {
        Some(raw.subrange(i, i + 1 + spec_find_flag(raw.skip(i + 1))))
    }
}

/// A forward scan that stops at the first element contained in `aliases`
/// computes `spec_find_alias`.
proof fn lemma_find_alias_scan(raw: Seq<Seq<char>>, aliases: Seq<Seq<char>>, j: int)
    requires
        0 <= j <= raw.len(),
        forall|k: int| 0 <= k < j ==> !spec_contains_str(aliases, raw[k]),
        j < raw.len() ==> spec_contains_str(aliases, raw[j]),
    ensures
        spec_find_alias(raw, aliases) == if j == raw.len() {
            -1
        } else {
            j
        },
    decreases raw.len(),
{
    if raw.len() == 0 {
    } else if spec_contains_str(aliases, raw[0]) {
        assert(j == 0);
    } else {
        assert(j >= 1);
        assert(forall|k: int| 0 <= k < raw.len() - 1 ==> raw.drop_first()[k] == raw[k + 1]);
        lemma_find_alias_scan(raw.drop_first(), aliases, j - 1);
    }
}

/// A forward scan that stops at the first flag-shaped element computes
/// `spec_find_flag`.
proof fn lemma_find_flag_scan(s: Seq<Seq<char>>, j: int)
    requires
        0 <= j <= s.len(),
        forall|k: int| 0 <= k < j ==> !spec_is_flag(s[k]),
        j < s.len() ==> spec_is_flag(s[j]),
    ensures
        spec_find_flag(s) == j,
    decreases s.len(),
{
    if s.len() == 0 {
    } else if spec_is_flag(s[0]) {
        assert(j == 0);
    } else {
        assert(j >= 1);
        assert(forall|k: int| 0 <= k < s.len() - 1 ==> s.drop_first()[k] == s[k + 1]);
        lemma_find_flag_scan(s.drop_first(), j - 1);
    }
}

/// Whether one of `hay` equals `needle`.
fn contains_string(hay: &Vec<String>, needle: &String) -> (r: bool)
    ensures
        r == spec_contains_str(string_views(hay@), needle@),
{
    let mut i: usize = 0;
    while i < hay.len()
        invariant
            0 <= i <= hay@.len(),
            forall|k: int| 0 <= k < i ==> string_views(hay@)[k] != needle@,
        decreases hay@.len() - i,
    {
        if hay[i] == *needle {
            proof {
                assert(hay@[i as int]@ == needle@);
                assert(string_views(hay@)[i as int] == needle@);
            }
            return true;
        }
        i = i + 1;
    }
    false
}

/// Whether `s` starts with `-`.
fn is_flag(s: &String) -> (r: bool)
    ensures
        r == spec_is_flag(s@),
{
    let n = s.as_str().unicode_len();
    n > 0 && s.as_str().get_char(0) == '-'
}

/// Clones the elements of `v` with indices in `[start, end)`.
fn clone_range(v: &Vec<String>, start: usize, end: usize) -> (r: Vec<String>)
    requires
        start <= end <= v@.len(),
    ensures
        string_views(r@) == string_views(v@).subrange(start as int, end as int),
{
    let mut out: Vec<String> = Vec::new();
    let mut k: usize = start;
    proof {
        assert(string_views(out@) =~= string_views(v@).subrange(start as int, start as int));
    }
    while k < end
        invariant
            start <= k <= end <= v@.len(),
            out@.len() == k - start,
            string_views(out@) == string_views(v@).subrange(start as int, k as int),
        decreases end - k,
    {
        let ghost oldout = out@;
        let x = v[k].clone();
        out.push(x);
        proof {
            assert(out@ =~= oldout.push(x));
            assert forall|j: int| 0 <= j < out@.len() implies string_views(out@)[j]
                == string_views(v@).subrange(start as int, k + 1)[j] by {
                assert(string_views(out@)[j] == out@[j]@);
                assert(string_views(v@).subrange(start as int, k + 1)[j] == v@[start + j]@);
                if j < k - start {
                    assert(out@[j] == oldout[j]);
                    assert(string_views(oldout)[j] == oldout[j]@);
                    assert(string_views(oldout)[j] == string_views(v@).subrange(
                        start as int,
                        k as int,
                    )[j]);
                    assert(string_views(v@).subrange(start as int, k as int)[j] == v@[start
                        + j]@);
                } else {
                    assert(out@[j] == x);
                    assert(x@ == v@[k as int]@);
                }
            }
            assert(string_views(out@) =~= string_views(v@).subrange(start as int, k + 1));
        }
        k = k + 1;
    }
    out
}

/// Looks up the arguments of the flag named by `aliases` in `raw`: the alias
/// occurrence itself and everything after it up to the next flag, `None` when
/// no alias occurs.  The result, when there is one, is never empty.
pub fn args_for(raw: &Vec<String>, aliases: &Vec<String>) -> (r: Option<Vec<String>>)
    ensures
        match r {
            Some(v) => {
                &&& spec_args_for(string_views(raw@), string_views(aliases@)) == Some(
                    string_views(v@),
                )
                &&& v@.len() >= 1
            },
            None => spec_args_for(string_views(raw@), string_views(aliases@)) is None,
        },
{
    let ghost rawv = string_views(raw@);
    let ghost aliasv = string_views(aliases@);
    let n = raw.len();
    let mut i: usize = 0;
    let mut found = false;
    while i < n && !found
        invariant
            0 <= i <= n,
            n == raw@.len(),
            rawv == string_views(raw@),
            aliasv == string_views(aliases@),
            forall|k: int| 0 <= k < i ==> !spec_contains_str(aliasv, rawv[k]),
            found ==> i < n && spec_contains_str(aliasv, rawv[i as int]),
        decreases n - i + (if found {
            0int
        } else {
            1int
        }),
    {
        if contains_string(aliases, &raw[i]) {
            found = true;
        } else {
            i = i + 1;
        }
    }
    proof {
        lemma_find_alias_scan(rawv, aliasv, i as int);
    }
    if !found {
        return None;
    }
    let mut e: usize = i + 1;
    while e < n && !is_flag(&raw[e])
        invariant
            i + 1 <= e <= n,
            n == raw@.len(),
            rawv == string_views(raw@),
            forall|k: int| i + 1 <= k < e ==> !spec_is_flag(rawv[k]),
        decreases n - e,
    {
        e = e + 1;
    }
    proof {
        let tail = rawv.skip(i + 1);
        assert(forall|k: int| 0 <= k < tail.len() ==> tail[k] == rawv[k + i + 1]);
        lemma_find_flag_scan(tail, e - i - 1);
        assert(spec_find_flag(tail) == e - i - 1);
    }
    let out = clone_range(raw, i, e);
    proof {
        assert(spec_find_alias(rawv, aliasv) == i as int);
        assert(spec_find_flag(rawv.skip(i + 1)) == e - i - 1);
        assert(i + 1 + spec_find_flag(rawv.skip(i + 1)) == e as int);
        assert(string_views(out@) == rawv.subrange(i as int, e as int));
        assert(spec_args_for(rawv, aliasv) == Some(string_views(out@)));
        assert(string_views(out@).len() == e - i);
        assert(out@.len() == string_views(out@).len());
    }
    Some(out)
}

/// What a parsed [`Args`] holds, mathematically.
pub ghost struct ArgsView {
    pub file_paths: Seq<Seq<char>>,
    pub patterns: Seq<PatternView>,
    pub dry_run: bool,
}

/// The validated configuration of one invocation: the files to rename, the
/// patterns to apply in order, and whether this is a dry run.
pub struct Args {
    pub file_paths: Vec<String>,
    pub patterns: Vec<Pattern>,
    pub dry_run: bool,
}

impl View for Args {
    type V = ArgsView;

    open spec fn view(&self) -> ArgsView {
        ArgsView {
            file_paths: string_views(self.file_paths@),
            patterns: pattern_views(self.patterns@),
            dry_run: self.dry_run,
        }
    }
}

/// How one parse attempt can end.
pub enum ParseOutcome {
    /// A validated configuration.
    Parsed(Args),
    /// The help screen was asked for.
    Help,
    /// The version was asked for.
    Version,
    /// The arguments were rejected, for the reason carried.
    Aborted(ExitCode),
}

/// The aliases of the help flag.
pub open spec fn spec_help_aliases() -> Seq<Seq<char>> {
    seq!["-h"@, "--help"@]
}

/// The aliases of the dry-run flag.
pub open spec fn spec_dry_run_aliases() -> Seq<Seq<char>> {
    seq!["-d"@, "--dry-run"@]
}

/// The aliases of the version flag.
pub open spec fn spec_version_aliases() -> Seq<Seq<char>> {
    seq!["-v"@, "--version"@]
}

/// The aliases of the files flag.
pub open spec fn spec_files_aliases() -> Seq<Seq<char>> {
    seq!["-f"@, "--files"@]
}

/// The aliases of the pattern flag.
pub open spec fn spec_pattern_aliases() -> Seq<Seq<char>> {
    seq!["-p"@, "--pattern"@]
}

fn help_aliases() -> (r: Vec<String>)
    ensures
        string_views(r@) == spec_help_aliases(),
{
    let mut v: Vec<String> = Vec::new();
    v.push(String::from_str("-h"));
    v.push(String::from_str("--help"));
    proof {
        assert(string_views(v@) =~= spec_help_aliases());
    }
    v
}

fn dry_run_aliases() -> (r: Vec<String>)
    ensures
        string_views(r@) == spec_dry_run_aliases(),
{
    let mut v: Vec<String> = Vec::new();
    v.push(String::from_str("-d"));
    v.push(String::from_str("--dry-run"));
    proof {
        assert(string_views(v@) =~= spec_dry_run_aliases());
    }
    v
}

fn version_aliases() -> (r: Vec<String>)
    ensures
        string_views(r@) == spec_version_aliases(),
{
    let mut v: Vec<String> = Vec::new();
    v.push(String::from_str("-v"));
    v.push(String::from_str("--version"));
    proof {
        assert(string_views(v@) =~= spec_version_aliases());
    }
    v
}

fn files_aliases() -> (r: Vec<String>)
    ensures
        string_views(r@) == spec_files_aliases(),
{
    let mut v: Vec<String> = Vec::new();
    v.push(String::from_str("-f"));
    v.push(String::from_str("--files"));
    proof {
        assert(string_views(v@) =~= spec_files_aliases());
    }
    v
}

fn pattern_aliases() -> (r: Vec<String>)
    ensures
        string_views(r@) == spec_pattern_aliases(),
{
    let mut v: Vec<String> = Vec::new();
    v.push(String::from_str("-p"));
    v.push(String::from_str("--pattern"));
    proof {
        assert(string_views(v@) =~= spec_pattern_aliases());
    }
    v
}

/// One item of a rendered list: the item in double quotes.
pub open spec fn spec_quote_item(s: Seq<char>) -> Seq<char> {
    "\""@ + s + "\""@
}

/// The items of a rendered list, quoted and separated by `, `.
pub open spec fn spec_quote_join(items: Seq<Seq<char>>) -> Seq<char>
    decreases items.len(),
{
    if items.len() == 0 {
        Seq::empty()
    } else if items.len() == 1 {
        spec_quote_item(items[0])
    } else {
        spec_quote_join(items.drop_last()) + ", "@ + spec_quote_item(items.last())
    }
}

/// A list of strings rendered as `["a", "b"]`.
pub open spec fn spec_quote_list(items: Seq<Seq<char>>) -> Seq<char> {
    "["@ + spec_quote_join(items) + "]"@
}

/// Renders `items` as `["a", "b"]`.
pub fn quote_list(items: &Vec<String>) -> (r: String)
    ensures
        r@ == spec_quote_list(string_views(items@)),
{
    let ghost views = string_views(items@);
    let mut out = String::from_str("[");
    let mut i: usize = 0;
    proof {
        assert(views.take(0) =~= Seq::<Seq<char>>::empty());
        assert(out@ =~= "["@ + spec_quote_join(views.take(0)));
    }
    while i < items.len()
        invariant
            0 <= i <= items@.len(),
            views == string_views(items@),
            out@ == "["@ + spec_quote_join(views.take(i as int)),
        decreases items@.len() - i,
    {
        if i > 0 {
            out.append(", ");
        }
        out.append("\"");
        out.append(items[i].as_str());
        out.append("\"");
        proof {
            assert(views.take(i + 1).drop_last() =~= views.take(i as int));
            assert(views.take(i + 1).last() == views[i as int]);
            if i == 0 {
                assert(out@ =~= "["@ + spec_quote_join(views.take(1)));
            } else {
                assert(out@ =~= "["@ + spec_quote_join(views.take(i + 1)));
            }
        }
        i = i + 1;
    }
    out.append("]");
    proof {
        assert(views.take(items@.len() as int) =~= views);
        assert(out@ =~= spec_quote_list(views));
    }
    out
}

/// A raw pattern as it is compiled: named, grouped, and made
/// case-insensitive.
pub open spec fn spec_decorate(p: Seq<char>) -> Seq<char> {
    "(?P<regex>(((?i)"@ + p + ")))"@
}

/// Wraps a raw pattern for compilation, as the parser does: the whole
/// pattern is grouped under the name `regex` and made case-insensitive.
pub fn decorate(p: &str) -> (r: String)
    ensures
        r@ == spec_decorate(p@),
{
    let mut out = String::from_str("(?P<regex>(((?i)");
    out.append(p);
    out.append(")))");
    proof {
        assert(out@ =~= spec_decorate(p@));
    }
    out
}

/// Whether every raw pattern at an even position of `rest` compiles.
pub open spec fn spec_all_patterns_valid(rest: Seq<Seq<char>>) -> bool {
    forall|k: int|
        0 <= k < rest.len() && k % 2 == 0 ==> re_valid(spec_decorate(#[trigger] rest[k]))
}

/// The first `n` patterns compiled from the raw pairs of `rest`.
pub open spec fn spec_compiled_prefix(rest: Seq<Seq<char>>, n: nat) -> Seq<PatternView> {
    Seq::new(n, |k: int| PatternView {
        source: spec_decorate(rest[2 * k]),
        replacement: rest[2 * k + 1],
    })
}

/// The patterns compiled from the raw pairs of `rest`.
pub open spec fn spec_compiled_patterns(rest: Seq<Seq<char>>) -> Seq<PatternView> {
    spec_compiled_prefix(rest, (rest.len() / 2) as nat)
}

/// How a raw argument vector parses, mathematically.
pub ghost enum SpecOutcome {
    Parsed(ArgsView),
    Help,
    Version,
    MissingArgument(Seq<Seq<char>>),
    NotEnoughFiles,
    NotEnoughPatterns(Seq<Seq<char>>),
    MalformedPattern(Seq<Seq<char>>),
    MalformedRegex,
}

/// The mathematical parser.  Flags are looked up in a fixed order: a help
/// request wins over a version request; then the files and the patterns are
/// required, each introduced by one of its aliases; the raw patterns after
/// the alias must come in at least one pair, in pairs only, and each must
/// compile.
pub open spec fn spec_parse(raw: Seq<Seq<char>>) -> SpecOutcome {
    if spec_args_for(raw, spec_help_aliases()) is Some {
        SpecOutcome::Help
    } else if spec_args_for(raw, spec_version_aliases()) is Some {
        SpecOutcome::Version
    } else {
        let dry_run = spec_args_for(raw, spec_dry_run_aliases()) is Some;
        match spec_args_for(raw, spec_files_aliases()) {
            Option::None => SpecOutcome::MissingArgument(spec_files_aliases()),
            Option::Some(fargs) => {
                if fargs.len() == 1 && spec_contains_str(spec_files_aliases(), fargs[0]) {
                    SpecOutcome::NotEnoughFiles
                } else {
                    match spec_args_for(raw, spec_pattern_aliases()) {
                        Option::None => SpecOutcome::MissingArgument(spec_pattern_aliases()),
                        Option::Some(pargs) => {
                            let rest = pargs.skip(1);
                            if rest.len() < 2 {
                                SpecOutcome::NotEnoughPatterns(rest)
                            } else if rest.len() % 2 != 0 {
                                SpecOutcome::MalformedPattern(rest)
                            } else if !spec_all_patterns_valid(rest) {
                                SpecOutcome::MalformedRegex
                            } else {
                                SpecOutcome::Parsed(ArgsView {
                                    file_paths: fargs.skip(1),
                                    patterns: spec_compiled_patterns(rest),
                                    dry_run,
                                })
                            }
                        },
                    }
                }
            },
        }
    }
}

/// Whether the returned outcome is the one the mathematical parser names:
/// the same variant, with the same configuration or the same rendered
/// message; only the message of a rejected regex, which the regex crate
/// words, is not pinned.
pub open spec fn spec_outcome_matches(r: ParseOutcome, s: SpecOutcome) -> bool {
    match s {
        SpecOutcome::Help => r is Help,
        SpecOutcome::Version => r is Version,
        SpecOutcome::Parsed(av) => r matches ParseOutcome::Parsed(a) && a@ == av,
        SpecOutcome::MissingArgument(aliases) => r matches ParseOutcome::Aborted(c)
            && c matches ExitCode::MissingRequiredCliArgument(m) && m@ == spec_quote_list(
            aliases,
        ),
        SpecOutcome::NotEnoughFiles => r matches ParseOutcome::Aborted(c)
            && c is NotEnoughFiles,
        SpecOutcome::NotEnoughPatterns(rest) => r matches ParseOutcome::Aborted(c)
            && c matches ExitCode::NotEnoughPatterns(m) && m@ == spec_quote_list(rest),
        SpecOutcome::MalformedPattern(rest) => r matches ParseOutcome::Aborted(c)
            && c matches ExitCode::MalformedPattern(m) && m@ == spec_quote_list(rest),
        SpecOutcome::MalformedRegex => r matches ParseOutcome::Aborted(c)
            && c is MalformedRegex,
    }
}

impl Args {
    /// Parses a raw argument vector, as handed to the program, into a
    /// validated configuration, a help or version request, or the exit
    /// reason to reject it with.
    pub fn parse(raw: &Vec<String>) -> (r: ParseOutcome)
        ensures
            spec_outcome_matches(r, spec_parse(string_views(raw@))),
    {
        let ghost rawv = string_views(raw@);
        let help = help_aliases();
        if args_for(raw, &help).is_some() {
            return ParseOutcome::Help;
        }
        let dry = dry_run_aliases();
        let dry_run = args_for(raw, &dry).is_some();
        let version = version_aliases();
        if args_for(raw, &version).is_some() {
            return ParseOutcome::Version;
        }
        let files_al = files_aliases();
        let fargs = match args_for(raw, &files_al) {
            Option::None => {
                return ParseOutcome::Aborted(ExitCode::MissingRequiredCliArgument(quote_list(
                    &files_al,
                )));
            },
            Option::Some(f) => f,
        };
        if fargs.len() == 1 && contains_string(&files_al, &fargs[0]) {
            return ParseOutcome::Aborted(ExitCode::NotEnoughFiles);
        }
        let file_paths = clone_range(&fargs, 1, fargs.len());
        let pattern_al = pattern_aliases();
        let pargs = match args_for(raw, &pattern_al) {
            Option::None => {
                return ParseOutcome::Aborted(ExitCode::MissingRequiredCliArgument(quote_list(
                    &pattern_al,
                )));
            },
            Option::Some(p) => p,
        };
        let rest = clone_range(&pargs, 1, pargs.len());
        let ghost restv = string_views(rest@);
        proof {
            assert(restv =~= string_views(pargs@).skip(1));
        }
        if rest.len() < 2 {
            return ParseOutcome::Aborted(ExitCode::NotEnoughPatterns(quote_list(&rest)));
        }
        if rest.len() % 2 != 0 {
            return ParseOutcome::Aborted(ExitCode::MalformedPattern(quote_list(&rest)));
        }
        let mut patterns: Vec<Pattern> = Vec::new();
        let mut idx: usize = 0;
        proof {
            assert(pattern_views(patterns@) =~= Seq::<PatternView>::empty());
        }
        #[verifier::loop_isolation(false)]
        while idx < rest.len()
            invariant
                0 <= idx <= rest@.len(),
                idx % 2 == 0,
                rest@.len() % 2 == 0,
                restv == string_views(rest@),
                forall|k: int|
                    0 <= k < idx && k % 2 == 0 ==> re_valid(spec_decorate(#[trigger] restv[k])),
                pattern_views(patterns@) == spec_compiled_prefix(restv, (idx / 2) as nat),
            decreases rest@.len() - idx,
        {
            let decorated = decorate(rest[idx].as_str());
            proof {
                assert(restv[idx as int] == rest@[idx as int]@);
                assert(restv[idx + 1] == rest@[idx + 1]@);
                assert(decorated@ == spec_decorate(restv[idx as int]));
            }
            match Pattern::new(decorated.as_str(), rest[idx + 1].as_str()) {
                Result::Ok(p) => {
                    let ghost oldpats = patterns@;
                    let ghost pv = p@;
                    patterns.push(p);
                    proof {
                        assert(patterns@ =~= oldpats.push(patterns@[patterns@.len() - 1]));
                        assert(pv == (PatternView {
                            source: spec_decorate(restv[idx as int]),
                            replacement: restv[idx + 1],
                        }));
                        let target = spec_compiled_prefix(restv, (idx / 2 + 1) as nat);
                        assert(2 * ((idx as int) / 2) == idx as int);
                        assert(oldpats.len() == idx / 2);
                        assert(patterns@.len() == idx / 2 + 1);
                        assert(target.len() == idx / 2 + 1);
                        assert forall|j: int| 0 <= j < patterns@.len() implies pattern_views(
                            patterns@,
                        )[j] == target[j] by {
                            assert(pattern_views(patterns@)[j] == patterns@[j]@);
                            assert(target[j] == (PatternView {
                                source: spec_decorate(restv[2 * j]),
                                replacement: restv[2 * j + 1],
                            }));
                            if j < oldpats.len() {
                                assert(patterns@[j] == oldpats[j]);
                                assert(pattern_views(oldpats)[j] == oldpats[j]@);
                                assert(pattern_views(oldpats)[j] == spec_compiled_prefix(
                                    restv,
                                    (idx / 2) as nat,
                                )[j]);
                            } else {
                                assert(patterns@[j]@ == pv);
                            }
                        }
                        assert(pattern_views(patterns@) =~= target);
                    }
                    idx = idx + 2;
                },
                Result::Err(msg) => {
                    proof {
                        assert(!re_valid(spec_decorate(restv[idx as int])));
                        assert(!spec_all_patterns_valid(restv));
                    }
                    return ParseOutcome::Aborted(ExitCode::MalformedRegex(msg));
                },
            }
        }
        proof {
            assert(spec_all_patterns_valid(restv));
            assert(pattern_views(patterns@) =~= spec_compiled_patterns(restv));
            assert(string_views(fargs@).len() >= 1);
            assert(string_views(file_paths@) =~= string_views(fargs@).skip(1));
        }
        ParseOutcome::Parsed(Args { file_paths, patterns, dry_run })
    }
}

} // verus!
