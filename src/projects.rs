use vstd::prelude::*;

use crate::error::Error;

verus! {

/// A project of the tracker. Its slug identifies it within the list and names
/// the store key of its time entries.
#[derive(Clone, Debug)]
pub struct Project {
    pub name: String,
    pub slug: String,
    pub description: String,
}

/// Whether `c` is alphabetic or numeric in Unicode's sense.
pub uninterp spec fn is_alphanumeric_char(c: char) -> bool;

/// Relies on `char::is_alphanumeric`: Unicode's Alphabetic or Numeric property.
#[verifier::external_body]
fn alphanumeric(c: char) -> (r: bool)
    ensures
        r == is_alphanumeric_char(c),
{
    c.is_alphanumeric()
}

/// A character that a slug may hold: alphanumeric, `-` or `_`.
pub open spec fn slug_char(c: char) -> bool {
    is_alphanumeric_char(c) || c == '-' || c == '_'
}

/// Whether every character of `slug` may stand in a slug.
pub fn is_valid_slug(slug: &str) -> (r: bool)
    ensures
        r == forall|i: int| 0 <= i < slug@.len() ==> slug_char(#[trigger] slug@[i]),
{
    let n = slug.unicode_len();
    let mut i: usize = 0;
    while i < n
        invariant
            i <= n,
            n == slug@.len(),
            forall|j: int| 0 <= j < i ==> slug_char(#[trigger] slug@[j]),
        decreases n - i,
    {
        let c = slug.get_char(i);
        if !(alphanumeric(c) || c == '-' || c == '_') {
            return false;
        }
        i = i + 1;
    }
    true
}

/// Some project of `s` has the slug `slug`.
pub open spec fn has_slug(s: Seq<Project>, slug: Seq<char>) -> bool {
    exists|i: int| 0 <= i < s.len() && s[i].slug@ == slug
}

/// `i` is the first position of `s` whose slug is `slug`.
pub open spec fn first_slug_at(s: Seq<Project>, slug: Seq<char>, i: int) -> bool {
    0 <= i < s.len() && s[i].slug@ == slug && forall|j: int| 0 <= j < i ==> s[j].slug@ != slug
}

/// Some project of `s` other than the one at `i` has the slug `slug`.
pub open spec fn slug_elsewhere(s: Seq<Project>, slug: Seq<char>, i: int) -> bool {
    exists|j: int| 0 <= j < s.len() && j != i && s[j].slug@ == slug
}

/// `s` without the projects whose slug is `slug`, the others in their order.
pub open spec fn without_slug(s: Seq<Project>, slug: Seq<char>) -> Seq<Project>
    decreases s.len(),
{
    if s.len() == 0 {
        s
    } else if s.last().slug@ == slug {
        without_slug(s.drop_last(), slug)
    } else {
        without_slug(s.drop_last(), slug).push(s.last())
    }
}

proof fn lemma_without_slug_facts(s: Seq<Project>, slug: Seq<char>)
    ensures
        forall|i: int|
            0 <= i < without_slug(s, slug).len() ==> #[trigger] without_slug(s, slug)[i].slug@
                != slug,
        without_slug(s, slug).len() <= s.len(),
    decreases s.len(),
{
    if s.len() > 0 {
        lemma_without_slug_facts(s.drop_last(), slug);
    }
}

/// No project of `without_slug(s, slug)` has the slug `slug`.
pub proof fn lemma_removed_slug_absent(s: Seq<Project>, slug: Seq<char>)
    ensures
        !has_slug(without_slug(s, slug), slug),
{
    lemma_without_slug_facts(s, slug);
}

/// The first position of `projects` whose slug is `slug`.
pub fn position_of(projects: &Vec<Project>, slug: &String) -> (r: Option<usize>)
    ensures
        match r {
            Some(i) => first_slug_at(projects@, slug@, i as int),
            None => !has_slug(projects@, slug@),
        },
{
    let mut i: usize = 0;
    while i < projects.len()
        invariant
            i <= projects.len(),
            forall|j: int| 0 <= j < i ==> projects@[j].slug@ != slug@,
        decreases projects.len() - i,
    {
        if projects[i].slug == *slug {
            return Some(i);
        }
        i = i + 1;
    }
    None
}

/// Whether a project other than the one at `skip` has the slug `slug`.
fn slug_taken_elsewhere(projects: &Vec<Project>, slug: &String, skip: usize) -> (r: bool)
    ensures
        r == slug_elsewhere(projects@, slug@, skip as int),
{
    let mut i: usize = 0;
    while i < projects.len()
        invariant
            i <= projects.len(),
            forall|j: int| 0 <= j < i && j != skip ==> projects@[j].slug@ != slug@,
        decreases projects.len() - i,
    {
        if i != skip && projects[i].slug == *slug {
            return true;
        }
        i = i + 1;
    }
    false
}

/// The project whose slug is `slug`; `NotFound` when there is none.
pub fn find_project<'a>(projects: &'a Vec<Project>, slug: &String) -> (r: Result<&'a Project, Error>)
    ensures
        has_slug(projects@, slug@) <==> r is Ok,
        match r {
            Ok(p) => exists|i: int| first_slug_at(projects@, slug@, i) && *p == projects@[i],
            Err(e) => e is NotFound,
        },
{
    match position_of(projects, slug) {
        Some(i) => Ok(&projects[i]),
        None => Err(Error::NotFound),
    }
}

/// Appends `project`, whose slug must be new; the flag says whether the list
/// was empty before, in which case the store must create the key rather than
/// replace its value.
pub fn add_to_list(projects: Vec<Project>, project: Project) -> (r: Result<(Vec<Project>, bool), Error>)
    ensures
        !has_slug(projects@, project.slug@) <==> r is Ok,
        match r {
            Ok((v, first)) => v@ == projects@.push(project) && first == (projects@.len() == 0),
            Err(e) => e is DuplicateSlug,
        },
{
    match position_of(&projects, &project.slug) {
        Some(_) => Err(Error::DuplicateSlug),
        None => {
            let first = projects.len() == 0;
            let mut v = projects;
            v.push(project);
            Ok((v, first))
        },
    }
}

/// Puts `project` in the place of the first project whose slug is `old_slug`.
/// Fails with `NotFound` when there is none, and with `DuplicateSlug` when the
/// slug changes to one that another project has.
pub fn replace_in_list(projects: Vec<Project>, old_slug: &String, project: Project) -> (r: Result<
    (Vec<Project>, usize),
    Error,
>)
    ensures
        match r {
            Ok((v, i)) => first_slug_at(projects@, old_slug@, i as int) && v@ == projects@.update(
                i as int,
                project,
            ) && (project.slug@ != old_slug@ ==> !slug_elsewhere(projects@, project.slug@, i as int)),
            Err(e) => (e is NotFound && !has_slug(projects@, old_slug@)) || (e is DuplicateSlug
                && exists|i: int|
                first_slug_at(projects@, old_slug@, i) && project.slug@ != old_slug@
                    && slug_elsewhere(projects@, project.slug@, i)),
        },
{
    match position_of(&projects, old_slug) {
        None => Err(Error::NotFound),
        Some(i) => {
            if project.slug != *old_slug && slug_taken_elsewhere(&projects, &project.slug, i) {
                return Err(Error::DuplicateSlug);
            }
            let mut v = projects;
            v.set(i, project);
            Ok((v, i))
        },
    }
}

/// Removes every project whose slug is `slug`; `NotFound` when there is none.
pub fn remove_from_list(projects: Vec<Project>, slug: &String) -> (r: Result<Vec<Project>, Error>)
    ensures
        has_slug(projects@, slug@) <==> r is Ok,
        match r {
            Ok(v) => v@ == without_slug(projects@, slug@),
            Err(e) => e is NotFound,
        },
{
    let ghost orig = projects@;
    let mut rest = projects;
    let mut kept: Vec<Project> = Vec::new();
    let mut found = false;
    let mut k: usize = 0;
    let n = rest.len();
    assert(orig.skip(0) =~= orig);
    assert(orig.take(0) =~= Seq::<Project>::empty());
    while k < n
        invariant
            k <= n,
            n == orig.len(),
            rest@ == orig.skip(k as int),
            kept@ == without_slug(orig.take(k as int), slug@),
            found == has_slug(orig.take(k as int), slug@),
        decreases n - k,
    {
        let p = rest.remove(0);
        proof {
            let t = orig.take(k + 1);
            assert(t.drop_last() =~= orig.take(k as int));
            assert(t.last() == p);
            if has_slug(t, slug@) && !has_slug(orig.take(k as int), slug@) {
                let j = choose|j: int| 0 <= j < t.len() && t[j].slug@ == slug@;
                assert(j == k);
            }
            if has_slug(orig.take(k as int), slug@) {
                let j = choose|j: int| 0 <= j < k && orig.take(k as int)[j].slug@ == slug@;
                assert(t[j].slug@ == slug@);
            }
            assert(rest@ =~= orig.skip(k + 1));
        }
        if p.slug == *slug {
            found = true;
        } else {
            kept.push(p);
        }
        k = k + 1;
    }
    assert(orig.take(k as int) =~= orig);
    if found {
        Ok(kept)
    } else {
        Err(Error::NotFound)
    }
}

} // verus!
