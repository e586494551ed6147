//! Which files of a repository a scan reads: directories that are always
//! skipped, and the user's ignore patterns (regular expressions matched
//! against the repository-relative path).
use vstd::prelude::*;
use crate::go_parser::texts;
use crate::text::{starts_with, find, chars_of, starts_with_chars, find_chars, push_all};

verus! {

#[verifier::external_type_specification]
#[verifier::external_body]
pub struct ExRegexSet(regex::RegexSet);

/// Whether the regular expression `pattern` matches somewhere in `haystack`
/// (the `regex` crate's syntax and semantics, unanchored).
pub uninterp spec fn regex_matches(pattern: Seq<char>, haystack: Seq<char>) -> bool;

/// Whether `regex::RegexSet::new` accepts the patterns (each parses, and the
/// set stays within the default size limits).
pub uninterp spec fn regex_set_accepts(patterns: Seq<Seq<char>>) -> bool;

/// The patterns a `RegexSet` was built from.
pub uninterp spec fn regex_set_patterns(set: regex::RegexSet) -> Seq<Seq<char>>;

/// Calls `regex::RegexSet::new`: a set is built exactly when the patterns are
/// accepted, and it holds those patterns.
#[verifier::external_body]
fn regex_set_new(patterns: &Vec<String>) -> (r: Option<regex::RegexSet>)
    ensures
        r is Some <==> regex_set_accepts(texts(patterns@)),
        r matches Some(s) ==> regex_set_patterns(s) == texts(patterns@),
{
    regex::RegexSet::new(patterns).ok()
}

/// Calls `regex::RegexSet::is_match`, which its documentation describes as
/// true if and only if one of the set's regexes matches the haystack.
#[verifier::external_body]
fn regex_set_is_match(set: &regex::RegexSet, haystack: &str) -> (b: bool)
    ensures
        b == (exists|i: int| 0 <= i < regex_set_patterns(*set).len() && regex_matches(#[trigger] regex_set_patterns(*set)[i], haystack@)),
{
    set.is_match(haystack)
}

/// The user's ignore patterns, each compiled on its own, so that a pattern
/// the `regex` crate refuses leaves the others in force.
pub struct IgnorePatterns {
    sets: Vec<regex::RegexSet>,
}

impl IgnorePatterns {
    /// Each set was built from exactly one pattern.
    #[verifier::type_invariant]
    spec fn one_pattern_each(self) -> bool {
        forall|i: int| 0 <= i < self.sets@.len() ==> (#[trigger] regex_set_patterns(self.sets@[i])).len() == 1
    }
}

impl View for IgnorePatterns {
    type V = Seq<Seq<char>>;

    /// The patterns in force, in the order they were given.
    closed spec fn view(&self) -> Seq<Seq<char>> {
        self.sets@.map_values(|s: regex::RegexSet| regex_set_patterns(s)[0])
    }
}

/// `path` matches one of the patterns.
pub open spec fn any_pattern_matches(patterns: Seq<Seq<char>>, path: Seq<char>) -> bool {
    exists|i: int| 0 <= i < patterns.len() && regex_matches(#[trigger] patterns[i], path)
}

/// The patterns that the `regex` crate accepts, each on its own, in order.
pub open spec fn accepted_patterns(patterns: Seq<Seq<char>>) -> Seq<Seq<char>>
    decreases patterns.len(),
{
    if patterns.len() == 0 {
        seq![]
    } else {
        accepted_patterns(patterns.drop_last()) + if regex_set_accepts(seq![patterns.last()]) {
            seq![patterns.last()]
        } else {
            seq![]
        }
    }
}

impl IgnorePatterns {
    /// Compiles the patterns; a pattern that the `regex` crate refuses is
    /// left out, and every other pattern is kept.
    pub fn new(patterns: &Vec<String>) -> (r: IgnorePatterns)
        ensures
            r@ == accepted_patterns(texts(patterns@)),
    {
        let ghost ps = texts(patterns@);
        let mut sets: Vec<regex::RegexSet> = Vec::new();
        let mut i: usize = 0;
        assert(ps.take(0) =~= Seq::<Seq<char>>::empty());
        while i < patterns.len()
            invariant
                ps == texts(patterns@),
                i <= patterns@.len(),
                forall|k: int| 0 <= k < sets@.len() ==> (#[trigger] regex_set_patterns(sets@[k])).len() == 1,
                sets@.map_values(|s: regex::RegexSet| regex_set_patterns(s)[0]) == accepted_patterns(
                    ps.take(i as int),
                ),
            decreases patterns@.len() - i,
        {
            let ghost before = sets@;
            let mut one: Vec<String> = Vec::new();
            one.push(patterns[i].clone());
            assert(texts(one@) =~= seq![ps[i as int]]);
            assert(ps.take(i + 1).drop_last() =~= ps.take(i as int));
            assert(ps.take(i + 1).last() == ps[i as int]);
            match regex_set_new(&one) {
                Some(set) => {
                    sets.push(set);
                    assert(sets@.map_values(|s: regex::RegexSet| regex_set_patterns(s)[0]) =~= before.map_values(
                        |s: regex::RegexSet| regex_set_patterns(s)[0],
                    ).push(ps[i as int]));
                },
                None => {
                    assert(accepted_patterns(ps.take(i + 1)) =~= accepted_patterns(ps.take(i as int)));
                },
            }
            i = i + 1;
        }
        assert(ps.take(patterns@.len() as int) =~= ps);
        IgnorePatterns { sets }
    }

    /// `rel` matches one of the patterns in force.
    pub fn is_ignored(&self, rel: &str) -> (b: bool)
        ensures
            b == any_pattern_matches(self@, rel@),
    {
        proof {
            use_type_invariant(self);
        }
        let ghost ps = self@;
        let mut i: usize = 0;
        while i < self.sets.len()
            invariant
                ps == self@,
                ps.len() == self.sets@.len(),
                i <= self.sets@.len(),
                forall|k: int| 0 <= k < self.sets@.len() ==> (#[trigger] regex_set_patterns(self.sets@[k])).len() == 1,
                forall|k: int| 0 <= k < i ==> !regex_matches(#[trigger] ps[k], rel@),
            decreases self.sets@.len() - i,
        {
            let set = &self.sets[i];
            assert(ps[i as int] == regex_set_patterns(self.sets@[i as int])[0]);
            if regex_set_is_match(set, rel) {
                assert(regex_matches(ps[i as int], rel@));
                return true;
            }
            i = i + 1;
        }
        false
    }
}

/// Directories that a TypeScript scan never enters: dependencies, build
/// output and caches.
pub open spec fn skip_dirs() -> Seq<Seq<char>> {
    seq!["node_modules"@, "dist"@, "build"@, ".next"@, ".nuxt"@, "coverage"@, ".cache"@]
}

fn skip_dirs_exec() -> (r: Vec<&'static str>)
    ensures
        r@.map_values(|s: &str| s@) == skip_dirs(),
{
    let r = vec!["node_modules", "dist", "build", ".next", ".nuxt", "coverage", ".cache"];
    assert(r@.map_values(|s: &str| s@) =~= skip_dirs());
    r
}

/// `rel` lies under directory `dir`: it starts with `dir/` or holds `/dir/`.
pub open spec fn under_dir(rel: Seq<char>, dir: Seq<char>) -> bool {
    starts_with(rel, dir + "/"@) || find(rel, "/"@ + dir + "/"@) is Some
}

fn under_dir_exec(rel: &[char], dir: &str) -> (b: bool)
    ensures
        b == under_dir(rel@, dir@),
{
    let d = chars_of(dir);
    let mut prefix = d.clone();
    assert(prefix@ == d@);
    push_all(&mut prefix, chars_of("/").as_slice());
    let mut inner = chars_of("/");
    push_all(&mut inner, d.as_slice());
    push_all(&mut inner, chars_of("/").as_slice());
    starts_with_chars(rel, prefix.as_slice()) || find_chars(rel, inner.as_slice()).is_some()
}

/// A TypeScript scan skips the file at the repository-relative path `rel`:
/// it lies under one of `skip_dirs()`.
pub fn should_skip(rel_str: &str) -> (b: bool)
    ensures
        b == exists|i: int| 0 <= i < skip_dirs().len() && under_dir(rel_str@, #[trigger] skip_dirs()[i]),
{
    let rel = chars_of(rel_str);
    let dirs = skip_dirs_exec();
    let ghost ds = skip_dirs();
    let mut i: usize = 0;
    while i < dirs.len()
        invariant
            i <= dirs@.len(),
            ds == skip_dirs(),
            dirs@.map_values(|s: &str| s@) == ds,
            rel@ == rel_str@,
            forall|j: int| 0 <= j < i ==> !under_dir(rel@, #[trigger] ds[j]),
        decreases dirs@.len() - i,
    {
        assert(dirs@[i as int]@ == ds[i as int]);
        if under_dir_exec(rel.as_slice(), dirs[i]) {
            return true;
        }
        i = i + 1;
    }
    false
}

/// A Go scan skips the file at the repository-relative path `rel`: it lies
/// under a `vendor` or `testdata` directory.
pub open spec fn go_skipped(rel: Seq<char>) -> bool {
    under_dir(rel, "vendor"@) || under_dir(rel, "testdata"@)
}

/// A Go scan leaves out exactly the files whose repository-relative path
/// starts with `vendor/` or `testdata/`, or holds `/vendor/` or
/// `/testdata/`.
pub proof fn lemma_go_skipped_dirs(rel: Seq<char>)
    ensures
        go_skipped(rel) <==> (starts_with(rel, "vendor/"@) || starts_with(rel, "testdata/"@) || find(
            rel,
            "/vendor/"@,
        ) is Some || find(rel, "/testdata/"@) is Some),
{
    reveal_strlit("vendor");
    reveal_strlit("testdata");
    reveal_strlit("/");
    reveal_strlit("vendor/");
    reveal_strlit("testdata/");
    reveal_strlit("/vendor/");
    reveal_strlit("/testdata/");
    assert("vendor"@ + "/"@ =~= "vendor/"@);
    assert("testdata"@ + "/"@ =~= "testdata/"@);
    assert("/"@ + "vendor"@ + "/"@ =~= "/vendor/"@);
    assert("/"@ + "testdata"@ + "/"@ =~= "/testdata/"@);
}

/// A TypeScript scan skips exactly the files under a `node_modules`,
/// `dist`, `build`, `.next`, `.nuxt`, `coverage` or `.cache` directory.
pub proof fn lemma_ts_skipped_dirs(rel: Seq<char>)
    ensures
        (exists|i: int| 0 <= i < skip_dirs().len() && under_dir(rel, #[trigger] skip_dirs()[i])) <==> (under_dir(
            rel,
            "node_modules"@,
        ) || under_dir(rel, "dist"@) || under_dir(rel, "build"@) || under_dir(rel, ".next"@) || under_dir(
            rel,
            ".nuxt"@,
        ) || under_dir(rel, "coverage"@) || under_dir(rel, ".cache"@)),
{
    let d = skip_dirs();
    assert(d[0] == "node_modules"@ && d[1] == "dist"@ && d[2] == "build"@ && d[3] == ".next"@);
    assert(d[4] == ".nuxt"@ && d[5] == "coverage"@ && d[6] == ".cache"@);
    assert(d.len() == 7);
}

/// Whether a Go scan leaves out the file at the repository-relative path
/// `rel`: under `vendor/` or `testdata/`, or matched by an ignore pattern.
pub fn go_path_excluded(rel_str: &str, ignore: &IgnorePatterns) -> (b: bool)
    ensures
        b == (go_skipped(rel_str@) || any_pattern_matches(ignore@, rel_str@)),
{
    let rel = chars_of(rel_str);
    if under_dir_exec(rel.as_slice(), "vendor") || under_dir_exec(rel.as_slice(), "testdata") {
        return true;
    }
    ignore.is_ignored(rel_str)
}

/// Whether a TypeScript scan leaves out the file at the repository-relative
/// path `rel`: under one of `skip_dirs()`, or matched by an ignore pattern.
pub fn ts_path_excluded(rel_str: &str, ignore: &IgnorePatterns) -> (b: bool)
    ensures
        b == ((exists|i: int| 0 <= i < skip_dirs().len() && under_dir(rel_str@, #[trigger] skip_dirs()[i]))
            || any_pattern_matches(ignore@, rel_str@)),
{
    if should_skip(rel_str) {
        return true;
    }
    ignore.is_ignored(rel_str)
}

} // verus!
