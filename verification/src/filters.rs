//! Package and function filters selected on the command line.

use vstd::prelude::*;
use std::collections::HashSet;
use crate::text::str_eq;

verus! {

/// The names in `s`, each kept at its first occurrence.
pub open spec fn first_occurrences(s: Seq<Seq<char>>) -> Seq<Seq<char>>
    decreases s.len(),
{
    if s.len() == 0 {
        Seq::empty()
    } else {
        let d = first_occurrences(s.drop_last());
        if d.contains(s.last()) {
            d
        } else {
            d.push(s.last())
        }
    }
}

proof fn lemma_contains_push(s: Seq<Seq<char>>, y: Seq<char>, x: Seq<char>)
    ensures
        s.push(y).contains(x) <==> (s.contains(x) || x == y),
{
    if s.contains(x) {
        let i = choose|i: int| 0 <= i < s.len() && s[i] == x;
        assert(s.push(y)[i] == x);
    }
    if x == y {
        assert(s.push(y)[s.len() as int] == x);
    }
    if s.push(y).contains(x) && x != y {
        let i = choose|i: int| 0 <= i < s.push(y).len() && s.push(y)[i] == x;
        assert(s[i] == x);
    }
}

proof fn lemma_first_occurrences(s: Seq<Seq<char>>)
    ensures
        first_occurrences(s).no_duplicates(),
        forall|x: Seq<char>| first_occurrences(s).contains(x) <==> s.contains(x),
    decreases s.len(),
{
    if s.len() > 0 {
        let p = s.drop_last();
        lemma_first_occurrences(p);
        let d = first_occurrences(p);
        assert(s =~= p.push(s.last()));
        assert forall|x: Seq<char>| first_occurrences(s).contains(x) <==> s.contains(x) by {
            lemma_contains_push(p, s.last(), x);
            lemma_contains_push(d, s.last(), x);
        }
    }
}

/// Whether `name` is one of `names`.
fn names_contain(names: &Vec<String>, name: &str) -> (r: bool)
    ensures
        r == names@.map_values(|s: String| s@).contains(name@),
{
    let ghost v = names@.map_values(|s: String| s@);
    let mut i: usize = 0;
    while i < names.len()
        invariant
            i <= names@.len(),
            v == names@.map_values(|s: String| s@),
            forall|k: int| 0 <= k < i ==> v[k] != name@,
        decreases names.len() - i,
    {
        if str_eq(names[i].as_str(), name) {
            assert(v[i as int] == name@);
            return true;
        }
        i = i + 1;
    }
    false
}

/// The distinct names of `items`, in first-occurrence order.
fn distinct_names(items: &Vec<String>) -> (r: Vec<String>)
    ensures
        r@.map_values(|s: String| s@) == first_occurrences(items@.map_values(|s: String| s@)),
{
    let ghost src = items@.map_values(|s: String| s@);
    let mut out: Vec<String> = Vec::new();
    let mut i: usize = 0;
    while i < items.len()
        invariant
            i <= items@.len(),
            src == items@.map_values(|s: String| s@),
            out@.map_values(|s: String| s@) == first_occurrences(src.take(i as int)),
        decreases items.len() - i,
    {
        assert(src.take(i + 1).drop_last() =~= src.take(i as int));
        assert(src.take(i + 1).last() == items@[i as int]@);
        if !names_contain(&out, items[i].as_str()) {
            let ghost before = out@;
            out.push(items[i].clone());
            assert(out@.map_values(|s: String| s@) =~= before.map_values(|s: String| s@).push(
                items@[i as int]@,
            ));
        }
        i = i + 1;
    }
    assert(src.take(items@.len() as int) =~= src);
    out
}

/// Which packages and functions the report is restricted to; an empty
/// list means "no restriction".
pub struct FilterSet {
    packages: Vec<String>,
    functions: Vec<String>,
}

impl FilterSet {
    /// The selected package names, each once.
    pub closed spec fn package_names(&self) -> Seq<Seq<char>> {
        self.packages@.map_values(|s: String| s@)
    }

    /// The selected function names, each once.
    pub closed spec fn function_names(&self) -> Seq<Seq<char>> {
        self.functions@.map_values(|s: String| s@)
    }

    /// Builds the filter; repeated names are kept once.
    pub fn new(packages: Vec<String>, functions: Vec<String>) -> (f: Self)
        ensures
            f.package_names() == first_occurrences(packages@.map_values(|s: String| s@)),
            f.function_names() == first_occurrences(functions@.map_values(|s: String| s@)),
            f.package_names().no_duplicates(),
            f.function_names().no_duplicates(),
            forall|x: Seq<char>|
                #[trigger] f.package_names().contains(x) <==> packages@.map_values(
                    |s: String| s@,
                ).contains(x),
            forall|x: Seq<char>|
                #[trigger] f.function_names().contains(x) <==> functions@.map_values(
                    |s: String| s@,
                ).contains(x),
    {
        proof {
            lemma_first_occurrences(packages@.map_values(|s: String| s@));
            lemma_first_occurrences(functions@.map_values(|s: String| s@));
        }
        FilterSet { packages: distinct_names(&packages), functions: distinct_names(&functions) }
    }

    /// Whether a package restriction is in effect.
    pub fn has_packages(&self) -> (r: bool)
        ensures
            r == (self.package_names().len() > 0),
    {
        self.packages.len() != 0
    }

    /// Whether a function restriction is in effect.
    pub fn has_functions(&self) -> (r: bool)
        ensures
            r == (self.function_names().len() > 0),
    {
        self.functions.len() != 0
    }

    /// Whether package `name` passes the filter.
    pub fn wants_package(&self, name: &str) -> (r: bool)
        ensures
            r == (self.package_names().len() == 0 || self.package_names().contains(name@)),
    {
        !self.has_packages() || names_contain(&self.packages, name)
    }

    /// Whether function `name` passes the filter.
    pub fn wants_function(&self, name: &str) -> (r: bool)
        ensures
            r == (self.function_names().len() == 0 || self.function_names().contains(name@)),
    {
        !self.has_functions() || names_contain(&self.functions, name)
    }

    /// The selected packages that are not among `cdylib_names`, in the
    /// filter's order.
    pub fn unknown_packages<'a>(&'a self, cdylib_names: &HashSet<&'a str>) -> (r: Vec<&'a str>)
        ensures
            r@.map_values(|s: &str| s@) == self.package_names().filter(
                |p: Seq<char>| !name_set_contents(*cdylib_names).contains(p),
            ),
    {
        let ghost known = name_set_contents(*cdylib_names);
        let ghost pred = |p: Seq<char>| !known.contains(p);
        let mut out: Vec<&'a str> = Vec::new();
        let mut i: usize = 0;
        while i < self.packages.len()
            invariant
                i <= self.packages@.len(),
                known == name_set_contents(*cdylib_names),
                pred == (|p: Seq<char>| !known.contains(p)),
                out@.map_values(|s: &str| s@) == self.package_names().take(i as int).filter(pred),
            decreases self.packages.len() - i,
        {
            let p = self.packages[i].as_str();
            proof {
                reveal_with_fuel(Seq::<_>::filter, 1);
                assert(self.package_names().take(i + 1).drop_last() =~= self.package_names().take(
                    i as int,
                ));
                assert(self.package_names()[i as int] == p@);
            }
            if !name_set_contains(cdylib_names, p) {
                let ghost before = out@;
                out.push(p);
                assert(out@.map_values(|s: &str| s@) =~= before.map_values(|s: &str| s@).push(p@));
            }
            i = i + 1;
        }
        assert(self.package_names().take(self.packages@.len() as int) =~= self.package_names());
        out
    }
}

/// What a `HashSet<&str>` holds, each element by its characters.
pub uninterp spec fn name_set_contents(set: HashSet<&str>) -> Set<Seq<char>>;

/// `HashSet::contains`: whether `name` is an element (string elements
/// compare by their characters).
#[verifier::external_body]
fn name_set_contains(set: &HashSet<&str>, name: &str) -> (r: bool)
    ensures
        r == name_set_contents(*set).contains(name@),
{
    set.contains(name)
}

} // verus!
