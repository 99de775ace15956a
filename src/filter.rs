use vstd::prelude::*;
use globset::{Glob, GlobSet, GlobSetBuilder};
use crate::config::Pattern;

verus! {

#[verifier::external_type_specification]
#[verifier::external_body]
pub struct ExGlob(Glob);

#[verifier::external_type_specification]
#[verifier::external_body]
pub struct ExGlobSet(GlobSet);

#[verifier::external_type_specification]
#[verifier::external_body]
pub struct ExGlobSetBuilder(GlobSetBuilder);

/// Whether `Glob::new` accepts the pattern text.
pub uninterp spec fn glob_compiles(pattern: Seq<char>) -> bool;

/// The pattern text that a compiled glob was built from.
pub uninterp spec fn glob_text(g: Glob) -> Seq<char>;

/// The pattern texts of the globs added to a builder, in order.
pub uninterp spec fn builder_patterns(b: GlobSetBuilder) -> Seq<Seq<char>>;

/// The pattern texts of the globs in a set, in order.
pub uninterp spec fn set_patterns(s: GlobSet) -> Seq<Seq<char>>;

/// Whether `GlobSetBuilder::build` succeeds on these pattern texts.
pub uninterp spec fn set_builds(patterns: Seq<Seq<char>>) -> bool;

/// Whether the glob with this pattern text matches the path.
pub uninterp spec fn glob_matches(pattern: Seq<char>, path: Seq<char>) -> bool;

/// Relies on `Glob::new`: it fails or succeeds on the text alone, and the
/// glob keeps the text it was built from (`Glob::glob`).
#[verifier::external_body]
fn compile_glob(pattern: &str) -> (r: Option<Glob>)
    ensures
        r is Some == glob_compiles(pattern@),
        r matches Some(g) ==> glob_text(g) == pattern@,
{
    Glob::new(pattern).ok()
}

/// Relies on `GlobSetBuilder::new`: a builder with no globs.
#[verifier::external_body]
fn new_builder() -> (r: GlobSetBuilder)
    ensures
        builder_patterns(r) == Seq::<Seq<char>>::empty(),
{
    GlobSetBuilder::new()
}

/// Relies on `GlobSetBuilder::add`: the glob is appended to the builder's list.
#[verifier::external_body]
fn add_glob(b: &mut GlobSetBuilder, g: Glob)
    ensures
        builder_patterns(*final(b)) == builder_patterns(*old(b)).push(glob_text(g)),
{
    b.add(g);
}

/// Relies on `GlobSetBuilder::build`: the set holds the builder's globs in
/// order; whether it succeeds depends on those globs alone.
#[verifier::external_body]
fn build_set(b: &GlobSetBuilder) -> (r: Option<GlobSet>)
    ensures
        r is Some == set_builds(builder_patterns(*b)),
        r matches Some(s) ==> set_patterns(s) == builder_patterns(*b),
{
    b.build().ok()
}

/// Relies on `GlobSet::empty`: a set with no globs.
#[verifier::external_body]
fn empty_set() -> (r: GlobSet)
    ensures
        set_patterns(r) == Seq::<Seq<char>>::empty(),
{
    GlobSet::empty()
}

/// Relies on `GlobSet::len`: the number of globs in the set.
#[verifier::external_body]
fn set_len(s: &GlobSet) -> (r: usize)
    ensures
        r == set_patterns(*s).len(),
{
    s.len()
}

/// Relies on `GlobSet::is_match`: true iff some glob of the set matches.
#[verifier::external_body]
fn set_is_match(s: &GlobSet, path: &str) -> (r: bool)
    ensures
        r == (exists|i: int| 0 <= i < set_patterns(*s).len()
            && #[trigger] glob_matches(set_patterns(*s)[i], path@)),
{
    s.is_match(path)
}

pub open spec fn any_glob_matches(patterns: Seq<Seq<char>>, path: Seq<char>) -> bool {
    exists|i: int| 0 <= i < patterns.len() && #[trigger] glob_matches(patterns[i], path)
}

/// The texts among `pats` that compile, in order.
pub open spec fn compiled_patterns(pats: Seq<Pattern>) -> Seq<Seq<char>>
    decreases pats.len(),
{
    if pats.len() == 0 {
        Seq::empty()
    } else if glob_compiles(pats.last().0@) {
        compiled_patterns(pats.drop_last()).push(pats.last().0@)
    } else {
        compiled_patterns(pats.drop_last())
    }
}

/// The globs that a filter built from `pats` holds: those that compile, or
/// none when they cannot be built into one set.
pub open spec fn set_of(pats: Seq<Pattern>) -> Seq<Seq<char>> {
    if set_builds(compiled_patterns(pats)) {
        compiled_patterns(pats)
    } else {
        Seq::empty()
    }
}

/// Inclusion and exclusion glob sets that decide which paths are synchronised.
pub struct PathFilter {
    inclusions: GlobSet,
    exclusions: GlobSet,
}

/// A filter accepts a path when its inclusion set is empty or matches the
/// path, and its exclusion set does not match it.
pub open spec fn accepts(inclusions: Seq<Seq<char>>, exclusions: Seq<Seq<char>>, path: Seq<char>) -> bool {
    (inclusions.len() == 0 || any_glob_matches(inclusions, path)) && !any_glob_matches(exclusions, path)
}

/// The filter's decision from what its sets say of a path: it passes when
/// there are no inclusion globs or one matches, and no exclusion glob does.
pub fn filter_verdict(no_inclusions: bool, inclusion_hit: bool, exclusion_hit: bool) -> (r: bool)
    ensures
        r == ((no_inclusions || inclusion_hit) && !exclusion_hit),
{
    (no_inclusions || inclusion_hit) && !exclusion_hit
}

/// Compiles a pattern list into one set, skipping patterns that do not compile.
fn compile_set(pats: &[Pattern]) -> (r: GlobSet)
    ensures
        set_patterns(r) == set_of(pats@),
{
    let mut b = new_builder();
    let mut i: usize = 0;
    while i < pats.len()
        invariant
            i <= pats@.len(),
            builder_patterns(b) == compiled_patterns(pats@.take(i as int)),
        decreases pats.len() - i,
    {
        assert(pats@.take(i + 1).drop_last() =~= pats@.take(i as int));
        if let Some(g) = compile_glob(pats[i].0.as_str()) {
            add_glob(&mut b, g);
        }
        i = i + 1;
    }
    assert(pats@.take(i as int) =~= pats@);
    match build_set(&b) {
        Some(s) => s,
        None => empty_set(),
    }
}

impl PathFilter {
    pub closed spec fn inclusion_patterns(&self) -> Seq<Seq<char>> {
        set_patterns(self.inclusions)
    }

    pub closed spec fn exclusion_patterns(&self) -> Seq<Seq<char>> {
        set_patterns(self.exclusions)
    }

    /// Builds a filter from pattern lists; a pattern that does not compile
    /// is skipped, and an empty inclusion list lets every path through.
    pub fn new(inclusions: &[Pattern], exclusions: &[Pattern]) -> (r: PathFilter)
        ensures
            r.inclusion_patterns() == set_of(inclusions@),
            r.exclusion_patterns() == set_of(exclusions@),
    {
        PathFilter { inclusions: compile_set(inclusions), exclusions: compile_set(exclusions) }
    }

    /// Whether the path is to be synchronised.
    pub fn check(&self, path: &str) -> (r: bool)
        ensures
            r == accepts(self.inclusion_patterns(), self.exclusion_patterns(), path@),
    {
        let no_inclusions = set_len(&self.inclusions) == 0;
        let inclusion_hit = set_is_match(&self.inclusions, path);
        let exclusion_hit = set_is_match(&self.exclusions, path);
        filter_verdict(no_inclusions, inclusion_hit, exclusion_hit)
    }
}

/// With an empty inclusion list, a filter accepts exactly the paths that its
/// exclusion set does not match.
pub proof fn lemma_empty_inclusion_list(f: PathFilter, inclusions: Seq<Pattern>, exclusions: Seq<Pattern>, path: Seq<char>)
    requires
        inclusions.len() == 0,
        f.inclusion_patterns() == set_of(inclusions),
        f.exclusion_patterns() == set_of(exclusions),
    ensures
        accepts(f.inclusion_patterns(), f.exclusion_patterns(), path)
            == !any_glob_matches(set_of(exclusions), path),
{
}

} // verus!
