//! Glob and regex patterns, and the selection of changed files by them.
use vstd::prelude::*;
use globset::{Glob, GlobBuilder, GlobSet, GlobSetBuilder};
use regex::Regex;
use crate::config::{FileSelector, PatternList};
use crate::error::{ErrorView, HooxError};
use crate::hooks::ChangedFile;
use crate::text::str_eq;

verus! {

#[verifier::external_type_specification]
#[verifier::external_body]
pub struct ExRegex(regex::Regex);

#[verifier::external_type_specification]
#[verifier::external_body]
pub struct ExGlob(globset::Glob);

#[verifier::external_type_specification]
#[verifier::external_body]
pub struct ExGlobSet(globset::GlobSet);

#[verifier::external_type_specification]
#[verifier::external_body]
pub struct ExGlobSetBuilder(globset::GlobSetBuilder);

/// The message of the error that `regex::Regex::new` reports for a pattern, none when it compiles.
pub uninterp spec fn regex_compile_error(pattern: Seq<char>) -> Option<Seq<char>>;

/// Whether `regex::Regex::is_match` finds a match of the pattern anywhere in the text.
pub uninterp spec fn regex_matches(pattern: Seq<char>, text: Seq<char>) -> bool;

/// The message of the error that `globset::GlobBuilder::build` reports for a pattern, none when it parses.
pub uninterp spec fn glob_parse_error(pattern: Seq<char>) -> Option<Seq<char>>;

/// Whether the glob pattern, parsed with `*` and `?` not matching `/`, matches the path.
pub uninterp spec fn glob_matches(pattern: Seq<char>, path: Seq<char>) -> bool;

/// The message of the error that `globset::GlobSetBuilder::build` reports for a
/// builder holding these patterns, none when it builds.
pub uninterp spec fn glob_set_build_error(patterns: Seq<Seq<char>>) -> Option<Seq<char>>;

/// The patterns a `globset::GlobSetBuilder` holds, in the order they were added.
pub uninterp spec fn builder_patterns(b: GlobSetBuilder) -> Seq<Seq<char>>;

/// The patterns a `globset::GlobSet` was built from, in order.
pub uninterp spec fn set_patterns(s: GlobSet) -> Seq<Seq<char>>;

/// A compiled regular expression together with its source pattern.
pub struct CompiledRegex {
    source: String,
    re: Regex,
}

impl CompiledRegex {
    /// The pattern this regex was compiled from.
    pub closed spec fn pattern(&self) -> Seq<char> {
        self.source@
    }
}

/// A parsed glob together with its source pattern.
pub struct GlobPattern {
    source: String,
    glob: Glob,
}

impl GlobPattern {
    /// The pattern this glob was parsed from.
    pub closed spec fn pattern(&self) -> Seq<char> {
        self.source@
    }
}

/// Compiles `pattern` with `regex::Regex::new`; the error is the message of
/// `regex::Error`. Claims that success and the message depend on the pattern alone.
#[verifier::external_body]
pub(crate) fn compile_regex(pattern: &str) -> (res: Result<CompiledRegex, String>)
    ensures
        match res {
            Ok(c) => regex_compile_error(pattern@) is None && c.pattern() == pattern@,
            Err(e) => regex_compile_error(pattern@) == Some(e@),
        },
{
    match Regex::new(pattern) {
        Ok(re) => Ok(CompiledRegex { source: pattern.to_string(), re }),
        Err(e) => Err(e.to_string()),
    }
}

/// `regex::Regex::is_match`: whether the regex matches anywhere in `text`.
/// Claims that the answer depends on the pattern and the text alone.
#[verifier::external_body]
pub(crate) fn regex_is_match(re: &CompiledRegex, text: &str) -> (res: bool)
    ensures
        res == regex_matches(re.pattern(), text@),
{
    re.re.is_match(text)
}

/// Parses `pattern` with `globset::GlobBuilder::build`, with the
/// `literal_separator` option on so that `*` and `?` do not match `/`; the
/// error is the message of `globset::Error`. Claims that success and the
/// message depend on the pattern alone.
#[verifier::external_body]
pub(crate) fn parse_glob(pattern: &str) -> (res: Result<GlobPattern, String>)
    ensures
        match res {
            Ok(g) => glob_parse_error(pattern@) is None && g.pattern() == pattern@,
            Err(e) => glob_parse_error(pattern@) == Some(e@),
        },
{
    match GlobBuilder::new(pattern).literal_separator(true).build() {
        Ok(glob) => Ok(GlobPattern { source: pattern.to_string(), glob }),
        Err(e) => Err(e.to_string()),
    }
}

/// `globset::GlobSetBuilder::new`: a builder holding no pattern.
#[verifier::external_body]
pub(crate) fn new_glob_set_builder() -> (res: GlobSetBuilder)
    ensures
        builder_patterns(res) == Seq::<Seq<char>>::empty(),
{
    GlobSetBuilder::new()
}

/// `globset::GlobSetBuilder::add`: appends the glob to the builder's patterns.
#[verifier::external_body]
pub(crate) fn glob_set_builder_add(b: &mut GlobSetBuilder, g: GlobPattern)
    ensures
        builder_patterns(*final(b)) == builder_patterns(*old(b)).push(g.pattern()),
{
    b.add(g.glob);
}

/// `globset::GlobSetBuilder::build`: a set of the builder's patterns, or the
/// message of the `globset::Error`. An empty builder always builds. Claims that
/// success and the message depend on the patterns alone.
#[verifier::external_body]
pub(crate) fn build_glob_set(b: &GlobSetBuilder) -> (res: Result<GlobSet, String>)
    ensures
        match res {
            Ok(s) => glob_set_build_error(builder_patterns(*b)) is None && set_patterns(s) == builder_patterns(*b),
            Err(e) => glob_set_build_error(builder_patterns(*b)) == Some(e@),
        },
        builder_patterns(*b).len() == 0 ==> res is Ok,
{
    match b.build() {
        Ok(s) => Ok(s),
        Err(e) => Err(e.to_string()),
    }
}

/// Whether some pattern in `pats` matches `path` as a glob.
pub open spec fn any_glob_matches(pats: Seq<Seq<char>>, path: Seq<char>) -> bool {
    exists|i: int| 0 <= i < pats.len() && glob_matches(#[trigger] pats[i], path)
}

/// Whether some pattern in `pats` matches `path` as a regex.
pub open spec fn any_regex_matches(pats: Seq<Seq<char>>, path: Seq<char>) -> bool {
    exists|i: int| 0 <= i < pats.len() && regex_matches(#[trigger] pats[i], path)
}

/// `globset::GlobSet::is_match`: true if any glob of the set matches the path.
#[verifier::external_body]
pub(crate) fn glob_set_is_match(s: &GlobSet, path: &str) -> (res: bool)
    ensures
        res == (exists|i: int| 0 <= i < set_patterns(*s).len() && glob_matches(#[trigger] set_patterns(*s)[i], path@)),
{
    s.is_match(path)
}

/// The first pattern that does not parse as a glob, with its message.
pub open spec fn first_glob_error(pats: Seq<Seq<char>>) -> Option<(Seq<char>, Seq<char>)>
    decreases pats.len(),
{
    if pats.len() == 0 {
        None
    } else {
        match first_glob_error(pats.drop_last()) {
            Some(e) => Some(e),
            None => match glob_parse_error(pats.last()) {
                Some(m) => Some((pats.last(), m)),
                None => None,
            },
        }
    }
}

/// The first pattern that does not compile as a regex, with its message.
pub open spec fn first_regex_error(pats: Seq<Seq<char>>) -> Option<(Seq<char>, Seq<char>)>
    decreases pats.len(),
{
    if pats.len() == 0 {
        None
    } else {
        match first_regex_error(pats.drop_last()) {
            Some(e) => Some(e),
            None => match regex_compile_error(pats.last()) {
                Some(m) => Some((pats.last(), m)),
                None => None,
            },
        }
    }
}

/// Whether some file in `acc` has this path.
pub open spec fn path_in(acc: Seq<ChangedFile>, path: Seq<char>) -> bool {
    exists|j: int| 0 <= j < acc.len() && (#[trigger] acc[j]).path@ == path
}

/// Appends to `acc`, in order, each file of `files` whose path satisfies `pred`
/// and is not yet present.
pub open spec fn add_matching(
    acc: Seq<ChangedFile>,
    files: Seq<ChangedFile>,
    pred: spec_fn(Seq<char>) -> bool,
) -> Seq<ChangedFile>
    decreases files.len(),
{
    if files.len() == 0 {
        acc
    } else {
        let prev = add_matching(acc, files.drop_last(), pred);
        let f = files.last();
        if pred(f.path@) && !path_in(prev, f.path@) {
            prev.push(f)
        } else {
            prev
        }
    }
}

/// The glob predicate of a pattern list.
pub open spec fn glob_pred(pats: Seq<Seq<char>>) -> spec_fn(Seq<char>) -> bool {
    |p: Seq<char>| any_glob_matches(pats, p)
}

/// The regex predicate of a pattern list.
pub open spec fn regex_pred(pats: Seq<Seq<char>>) -> spec_fn(Seq<char>) -> bool {
    |p: Seq<char>| any_regex_matches(pats, p)
}

/// The files a selector picks: first those matching a glob, then those matching
/// a regex, each path once, in the order of `files`; or the first pattern error.
pub open spec fn spec_filter_files(sel: FileSelector, files: Seq<ChangedFile>) -> Result<Seq<ChangedFile>, ErrorView> {
    let after_glob: Result<Seq<ChangedFile>, ErrorView> = match sel.glob {
        None => Ok(Seq::empty()),
        Some(pl) => {
            let pats = pl.pattern_seq();
            match first_glob_error(pats) {
                Some(e) => Err(ErrorView::InvalidGlob { pattern: e.0, message: e.1 }),
                None => match glob_set_build_error(pats) {
                    Some(m) => Err(ErrorView::GlobSetBuild { message: m }),
                    None => Ok(add_matching(Seq::empty(), files, glob_pred(pats))),
                },
            }
        },
    };
    match after_glob {
        Err(e) => Err(e),
        Ok(m) => match sel.regex {
            None => Ok(m),
            Some(pl) => {
                let pats = pl.pattern_seq();
                match first_regex_error(pats) {
                    Some(e) => Err(ErrorView::InvalidRegex { pattern: e.0, message: e.1 }),
                    None => Ok(add_matching(m, files, regex_pred(pats))),
                }
            },
        },
    }
}

/// Whether some file of `acc` has the path `path`.
fn contains_path(acc: &Vec<ChangedFile>, path: &str) -> (res: bool)
    ensures
        res == path_in(acc@, path@),
{
    let mut j: usize = 0;
    while j < acc.len()
        invariant
            j <= acc@.len(),
            forall|k: int| 0 <= k < j ==> (#[trigger] acc@[k]).path@ != path@,
        decreases acc@.len() - j,
    {
        if str_eq(acc[j].path.as_str(), path) {
            return true;
        }
        j = j + 1;
    }
    false
}

/// Compiles every glob of the list into one set, or reports the first error.
fn build_globs(pats: &Vec<&str>) -> (res: Result<GlobSet, HooxError>)
    ensures
        match res {
            Ok(s) => first_glob_error(pats@.map_values(|p: &str| p@)) is None
                && glob_set_build_error(pats@.map_values(|p: &str| p@)) is None
                && set_patterns(s) == pats@.map_values(|p: &str| p@),
            Err(e) => match first_glob_error(pats@.map_values(|p: &str| p@)) {
                Some(fe) => e@ == ErrorView::InvalidGlob { pattern: fe.0, message: fe.1 },
                None => glob_set_build_error(pats@.map_values(|p: &str| p@)) matches Some(m)
                    && e@ == ErrorView::GlobSetBuild { message: m },
            },
        },
{
    let ghost all = pats@.map_values(|p: &str| p@);
    let mut builder = new_glob_set_builder();
    let mut i: usize = 0;
    while i < pats.len()
        invariant
            i <= pats@.len(),
            all == pats@.map_values(|p: &str| p@),
            first_glob_error(all.take(i as int)) is None,
            builder_patterns(builder) == all.take(i as int),
        decreases pats@.len() - i,
    {
        proof {
            assert(all.take(i + 1).drop_last() =~= all.take(i as int));
        }
        match parse_glob(pats[i]) {
            Ok(g) => {
                glob_set_builder_add(&mut builder, g);
                proof {
                    assert(builder_patterns(builder) =~= all.take(i + 1));
                }
            },
            Err(m) => {
                proof {
                    lemma_first_error_prefix(all, i as int + 1, true);
                }
                return Err(HooxError::InvalidGlob { pattern: pats[i].to_owned(), message: m });
            },
        }
        i = i + 1;
    }
    proof {
        assert(all.take(pats@.len() as int) =~= all);
    }
    match build_glob_set(&builder) {
        Ok(s) => Ok(s),
        Err(m) => Err(HooxError::GlobSetBuild { message: m }),
    }
}

/// Compiles every regex of the list, or reports the first error.
pub(crate) fn compile_regexes(pats: &Vec<&str>) -> (res: Result<Vec<CompiledRegex>, HooxError>)
    ensures
        match res {
            Ok(v) => first_regex_error(pats@.map_values(|p: &str| p@)) is None
                && v@.map_values(|c: CompiledRegex| c.pattern()) == pats@.map_values(|p: &str| p@),
            Err(e) => first_regex_error(pats@.map_values(|p: &str| p@)) matches Some(fe)
                && e@ == ErrorView::InvalidRegex { pattern: fe.0, message: fe.1 },
        },
{
    let ghost all = pats@.map_values(|p: &str| p@);
    let mut out: Vec<CompiledRegex> = Vec::new();
    let mut i: usize = 0;
    while i < pats.len()
        invariant
            i <= pats@.len(),
            all == pats@.map_values(|p: &str| p@),
            first_regex_error(all.take(i as int)) is None,
            out@.map_values(|c: CompiledRegex| c.pattern()) == all.take(i as int),
        decreases pats@.len() - i,
    {
        proof {
            assert(all.take(i + 1).drop_last() =~= all.take(i as int));
        }
        match compile_regex(pats[i]) {
            Ok(c) => {
                let ghost before = out@;
                out.push(c);
                proof {
                    assert(out@.map_values(|c: CompiledRegex| c.pattern()) =~= before.map_values(
                        |c: CompiledRegex| c.pattern(),
                    ).push(all[i as int]));
                    assert(all.take(i + 1) =~= all.take(i as int).push(all[i as int]));
                }
            },
            Err(m) => {
                proof {
                    lemma_first_error_prefix(all, i as int + 1, false);
                }
                return Err(HooxError::InvalidRegex { pattern: pats[i].to_owned(), message: m });
            },
        }
        i = i + 1;
    }
    proof {
        assert(all.take(pats@.len() as int) =~= all);
    }
    Ok(out)
}

/// An error found in a prefix is the first error of the whole list.
proof fn lemma_first_error_prefix(all: Seq<Seq<char>>, n: int, glob: bool)
    requires
        0 <= n <= all.len(),
    ensures
        glob ==> (first_glob_error(all.take(n)) is Some ==> first_glob_error(all) == first_glob_error(all.take(n))),
        !glob ==> (first_regex_error(all.take(n)) is Some ==> first_regex_error(all) == first_regex_error(all.take(n))),
    decreases all.len() - n,
{
    if n < all.len() {
        lemma_first_error_prefix(all, n + 1, glob);
        assert(all.take(n + 1).drop_last() =~= all.take(n));
    } else {
        assert(all.take(n) =~= all);
    }
}

/// Whether any of the compiled regexes matches `text`.
pub(crate) fn any_regex_is_match(res: &Vec<CompiledRegex>, text: &str) -> (out: bool)
    ensures
        out == any_regex_matches(res@.map_values(|c: CompiledRegex| c.pattern()), text@),
{
    let ghost pats = res@.map_values(|c: CompiledRegex| c.pattern());
    let mut i: usize = 0;
    while i < res.len()
        invariant
            i <= res@.len(),
            pats == res@.map_values(|c: CompiledRegex| c.pattern()),
            forall|k: int| 0 <= k < i ==> !regex_matches(#[trigger] pats[k], text@),
        decreases res@.len() - i,
    {
        if regex_is_match(&res[i], text) {
            proof {
                assert(regex_matches(pats[i as int], text@));
            }
            return true;
        }
        i = i + 1;
    }
    false
}

/// Filters the changed files by the selector's globs and regexes; a file is
/// kept when its path matches either kind of pattern, each path once.
pub fn filter_files(selector: &FileSelector, changed_files: &Vec<ChangedFile>) -> (res: Result<
    Vec<ChangedFile>,
    HooxError,
>)
    ensures
        match res {
            Ok(v) => spec_filter_files(*selector, changed_files@) == Ok::<Seq<ChangedFile>, ErrorView>(v@),
            Err(e) => spec_filter_files(*selector, changed_files@) == Err::<Seq<ChangedFile>, ErrorView>(e@),
        },
{
    let ghost files = changed_files@;
    let mut matched: Vec<ChangedFile> = Vec::new();
    if let Some(patterns) = &selector.glob {
        let pats = patterns.patterns();
        let set = match build_globs(&pats) {
            Ok(s) => s,
            Err(e) => return Err(e),
        };
        let ghost gp = patterns.pattern_seq();
        let mut j: usize = 0;
        while j < changed_files.len()
            invariant
                j <= files.len(),
                files == changed_files@,
                set_patterns(set) == gp,
                matched@ == add_matching(Seq::empty(), files.take(j as int), glob_pred(gp)),
            decreases files.len() - j,
        {
            proof {
                assert(files.take(j + 1).drop_last() =~= files.take(j as int));
            }
            let f = &changed_files[j];
            if glob_set_is_match(&set, f.path.as_str()) && !contains_path(&matched, f.path.as_str()) {
                matched.push(f.clone());
            }
            j = j + 1;
        }
        proof {
            assert(files.take(files.len() as int) =~= files);
        }
    }
    if let Some(patterns) = &selector.regex {
        let pats = patterns.patterns();
        let regexes = match compile_regexes(&pats) {
            Ok(v) => v,
            Err(e) => return Err(e),
        };
        let ghost rp = patterns.pattern_seq();
        let ghost start = matched@;
        let mut j: usize = 0;
        while j < changed_files.len()
            invariant
                j <= files.len(),
                files == changed_files@,
                regexes@.map_values(|c: CompiledRegex| c.pattern()) == rp,
                matched@ == add_matching(start, files.take(j as int), regex_pred(rp)),
            decreases files.len() - j,
        {
            proof {
                assert(files.take(j + 1).drop_last() =~= files.take(j as int));
            }
            let f = &changed_files[j];
            if any_regex_is_match(&regexes, f.path.as_str()) && !contains_path(&matched, f.path.as_str()) {
                matched.push(f.clone());
            }
            j = j + 1;
        }
        proof {
            assert(files.take(files.len() as int) =~= files);
        }
    }
    Ok(matched)
}


/// No two files have the same path.
pub open spec fn paths_distinct(s: Seq<ChangedFile>) -> bool {
    forall|i: int, j: int| 0 <= i < s.len() && 0 <= j < s.len() && i != j ==> (#[trigger] s[i]).path@ != (#[trigger] s[j]).path@
}

/// Whether `f` is one of the files of `s`.
pub open spec fn file_in(s: Seq<ChangedFile>, f: ChangedFile) -> bool {
    exists|k: int| 0 <= k < s.len() && s[k] == f
}

proof fn lemma_add_matching(acc: Seq<ChangedFile>, files: Seq<ChangedFile>, pred: spec_fn(Seq<char>) -> bool)
    ensures
        paths_distinct(acc) ==> paths_distinct(add_matching(acc, files, pred)),
        forall|i: int| 0 <= i < add_matching(acc, files, pred).len() ==> {
            let f = #[trigger] add_matching(acc, files, pred)[i];
            file_in(acc, f) || (file_in(files, f) && pred(f.path@))
        },
        forall|p: Seq<char>| #[trigger] path_in(add_matching(acc, files, pred), p) <==> (path_in(acc, p) || (
            path_in(files, p) && pred(p))),
    decreases files.len(),
{
    if files.len() > 0 {
        let t = files.drop_last();
        lemma_add_matching(acc, t, pred);
        let prev = add_matching(acc, t, pred);
        let f = files.last();
        let res = add_matching(acc, files, pred);
        assert forall|k: int| 0 <= k < t.len() implies file_in(files, #[trigger] t[k]) by {
            assert(files[k] == t[k]);
        }
        assert forall|p: Seq<char>| #[trigger] path_in(files, p) <==> (path_in(t, p) || f.path@ == p) by {
            if path_in(files, p) {
                let k = choose|k: int| 0 <= k < files.len() && (#[trigger] files[k]).path@ == p;
                if k < t.len() {
                    assert(t[k] == files[k]);
                }
            }
            if path_in(t, p) {
                let k = choose|k: int| 0 <= k < t.len() && (#[trigger] t[k]).path@ == p;
                assert(files[k] == t[k]);
            }
            if f.path@ == p {
                assert(files[files.len() - 1] == f);
            }
        }
        if pred(f.path@) && !path_in(prev, f.path@) {
            assert(res == prev.push(f));
            assert(files[files.len() - 1] == f);
            assert forall|p: Seq<char>| #[trigger] path_in(res, p) <==> (path_in(prev, p) || f.path@ == p) by {
                if path_in(res, p) {
                    let k = choose|k: int| 0 <= k < res.len() && (#[trigger] res[k]).path@ == p;
                    if k < prev.len() {
                        assert(prev[k] == res[k]);
                    }
                }
                if path_in(prev, p) {
                    let k = choose|k: int| 0 <= k < prev.len() && (#[trigger] prev[k]).path@ == p;
                    assert(res[k] == prev[k]);
                }
                if f.path@ == p {
                    assert(res[prev.len() as int] == f);
                }
            }
            if paths_distinct(acc) {
                assert forall|i: int, j: int| 0 <= i < res.len() && 0 <= j < res.len() && i != j implies (
                #[trigger] res[i]).path@ != (#[trigger] res[j]).path@ by {
                    if i < prev.len() && j < prev.len() {
                        assert(prev[i] == res[i] && prev[j] == res[j]);
                    } else if i < prev.len() {
                        assert(prev[i] == res[i]);
                    } else {
                        assert(prev[j] == res[j]);
                    }
                }
            }
            assert forall|i: int| 0 <= i < res.len() implies {
                let g = #[trigger] res[i];
                file_in(acc, g) || (file_in(files, g) && pred(g.path@))
            } by {
                if i < prev.len() {
                    assert(prev[i] == res[i]);
                }
            }
        } else {
            assert forall|p: Seq<char>| #[trigger] path_in(res, p) <==> (path_in(acc, p) || (path_in(files, p)
                && pred(p))) by {
                if f.path@ == p && pred(p) && !path_in(t, p) && !path_in(acc, p) {
                    assert(path_in(prev, p));
                }
            }
        }
    }
}

/// Each path occurs at most once among the selected files.
pub proof fn law_filter_paths_distinct(sel: FileSelector, files: Seq<ChangedFile>)
    ensures
        spec_filter_files(sel, files) matches Ok(m) ==> paths_distinct(m),
{
    let e = Seq::<ChangedFile>::empty();
    lemma_add_matching(e, files, glob_pred(match sel.glob { Some(pl) => pl.pattern_seq(), None => Seq::empty() }));
    let g = match sel.glob {
        None => e,
        Some(pl) => add_matching(e, files, glob_pred(pl.pattern_seq())),
    };
    lemma_add_matching(g, files, regex_pred(match sel.regex { Some(pl) => pl.pattern_seq(), None => Seq::empty() }));
}

/// Every selected file is one of the changed files, and matches a glob or a regex.
pub proof fn law_filter_selects_from_input(sel: FileSelector, files: Seq<ChangedFile>)
    ensures
        spec_filter_files(sel, files) matches Ok(m) ==> forall|i: int| 0 <= i < m.len() ==> {
            let f = #[trigger] m[i];
            &&& file_in(files, f)
            &&& (sel.glob matches Some(pl) && any_glob_matches(pl.pattern_seq(), f.path@)) || (
            sel.regex matches Some(pl) && any_regex_matches(pl.pattern_seq(), f.path@))
        },
{
    let e = Seq::<ChangedFile>::empty();
    lemma_add_matching(e, files, glob_pred(match sel.glob { Some(pl) => pl.pattern_seq(), None => Seq::empty() }));
    let g = match sel.glob {
        None => e,
        Some(pl) => add_matching(e, files, glob_pred(pl.pattern_seq())),
    };
    lemma_add_matching(g, files, regex_pred(match sel.regex { Some(pl) => pl.pattern_seq(), None => Seq::empty() }));
}

/// A changed file's path is selected exactly when it matches a glob or a regex
/// of the selector (either kind suffices).
pub proof fn law_filter_either_kind(sel: FileSelector, files: Seq<ChangedFile>, p: Seq<char>)
    requires
        path_in(files, p),
    ensures
        spec_filter_files(sel, files) matches Ok(m) ==> (path_in(m, p) <==> ((sel.glob matches Some(pl)
            && any_glob_matches(pl.pattern_seq(), p)) || (sel.regex matches Some(pl) && any_regex_matches(
            pl.pattern_seq(),
            p,
        )))),
{
    let e = Seq::<ChangedFile>::empty();
    lemma_add_matching(e, files, glob_pred(match sel.glob { Some(pl) => pl.pattern_seq(), None => Seq::empty() }));
    let g = match sel.glob {
        None => e,
        Some(pl) => add_matching(e, files, glob_pred(pl.pattern_seq())),
    };
    lemma_add_matching(g, files, regex_pred(match sel.regex { Some(pl) => pl.pattern_seq(), None => Seq::empty() }));
    assert(!path_in(e, p));
}


proof fn lemma_no_glob_error(pats: Seq<Seq<char>>)
    ensures
        (forall|i: int| 0 <= i < pats.len() ==> #[trigger] glob_parse_error(pats[i]) is None) <==> first_glob_error(pats)
            is None,
    decreases pats.len(),
{
    if pats.len() > 0 {
        let t = pats.drop_last();
        lemma_no_glob_error(t);
        if first_glob_error(t) is None && glob_parse_error(pats.last()) is None {
            assert forall|i: int| 0 <= i < pats.len() implies #[trigger] glob_parse_error(pats[i]) is None by {
                if i < t.len() {
                    assert(t[i] == pats[i]);
                }
            }
        }
        if forall|i: int| 0 <= i < pats.len() ==> #[trigger] glob_parse_error(pats[i]) is None {
            assert forall|i: int| 0 <= i < t.len() implies #[trigger] glob_parse_error(t[i]) is None by {
                assert(t[i] == pats[i]);
            }
            assert(glob_parse_error(pats[pats.len() - 1]) is None);
        }
    }
}

proof fn lemma_no_regex_error(pats: Seq<Seq<char>>)
    ensures
        (forall|i: int| 0 <= i < pats.len() ==> #[trigger] regex_compile_error(pats[i]) is None) <==> first_regex_error(
            pats,
        ) is None,
    decreases pats.len(),
{
    if pats.len() > 0 {
        let t = pats.drop_last();
        lemma_no_regex_error(t);
        if first_regex_error(t) is None && regex_compile_error(pats.last()) is None {
            assert forall|i: int| 0 <= i < pats.len() implies #[trigger] regex_compile_error(pats[i]) is None by {
                if i < t.len() {
                    assert(t[i] == pats[i]);
                }
            }
        }
        if forall|i: int| 0 <= i < pats.len() ==> #[trigger] regex_compile_error(pats[i]) is None {
            assert forall|i: int| 0 <= i < t.len() implies #[trigger] regex_compile_error(t[i]) is None by {
                assert(t[i] == pats[i]);
            }
            assert(regex_compile_error(pats[pats.len() - 1]) is None);
        }
    }
}

/// Filtering succeeds exactly when every pattern compiles (and the globs
/// combine into one set); when a glob does not parse, the error reported is
/// an invalid glob, whatever the regexes.
pub proof fn law_filter_fails_only_on_bad_patterns(sel: FileSelector, files: Seq<ChangedFile>)
    ensures
        spec_filter_files(sel, files) is Ok <==> ((sel.glob matches Some(pl) ==> (forall|i: int|
            0 <= i < pl.pattern_seq().len() ==> #[trigger] glob_parse_error(pl.pattern_seq()[i]) is None)
            && glob_set_build_error(pl.pattern_seq()) is None) && (sel.regex matches Some(pl) ==> forall|i: int|
            0 <= i < pl.pattern_seq().len() ==> #[trigger] regex_compile_error(pl.pattern_seq()[i]) is None)),
        (sel.glob matches Some(pl) && exists|i: int|
            0 <= i < pl.pattern_seq().len() && #[trigger] glob_parse_error(pl.pattern_seq()[i]) is Some)
            ==> spec_filter_files(sel, files) is Err && spec_filter_files(sel, files)->Err_0 is InvalidGlob,
{
    if let Some(pl) = sel.glob {
        lemma_no_glob_error(pl.pattern_seq());
    }
    if let Some(pl) = sel.regex {
        lemma_no_regex_error(pl.pattern_seq());
    }
}
} // verus!
