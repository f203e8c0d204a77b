//! The résumé page: its entries, and the choice of the featured role.

use vstd::prelude::*;

verus! {

/// A role of the work and education timeline.
#[derive(Debug, Clone)]
pub struct Role {
    /// Start, as written (`2021`, `Mar 2021`).
    pub from: String,
    /// End, as written (`present`).
    pub to: String,
    pub org: String,
    /// Location.
    pub loc: String,
    pub title: String,
    /// Subtitle.
    pub sub: String,
    pub body: String,
    pub tags: Vec<String>,
    /// The role shown on its own at the top of the page.
    pub featured: bool,
}

/// A peer-reviewed publication.
#[derive(Debug, Clone)]
pub struct Publication {
    /// Author list as a formatted string.
    pub authors: String,
    pub title: String,
    /// Journal or conference name.
    pub journal: String,
    pub year: u32,
    /// DOI identifier, if there is one.
    pub doi: Option<String>,
    /// arXiv identifier, if there is one.
    pub arxiv: Option<String>,
}

/// An honour or award.
#[derive(Debug, Clone)]
pub struct Honour {
    pub year: u32,
    pub award: String,
    /// Awarding organisation.
    pub org: String,
}

/// The featured roles.
pub open spec fn is_featured() -> spec_fn(Role) -> bool {
    |r: Role| r.featured
}

/// The roles of the timeline.
pub open spec fn not_featured() -> spec_fn(Role) -> bool {
    |r: Role| !r.featured
}

/// Splits the roles into the featured role and the others, each in the
/// order given. The résumé must have exactly one featured role; otherwise
/// the number of featured roles found is returned.
pub fn split_featured(roles: Vec<Role>) -> (r: Result<(Role, Vec<Role>), usize>)
    ensures
        match r {
            Ok((f, rest)) => roles@.filter(is_featured()) == seq![f] && rest@ == roles@.filter(not_featured()),
            Err(n) => n == roles@.filter(is_featured()).len() && n != 1,
        },
{
    let ghost all = roles@;
    assert(all.len() == roles.len());
    let mut input = roles;
    let mut featured: Vec<Role> = Vec::new();
    let mut rest: Vec<Role> = Vec::new();
    let mut n: usize = 0;
    assert(all.take(0) =~= Seq::<Role>::empty());
    assert(all.skip(0) =~= all);
    proof {
        reveal(Seq::filter);
    }
    while input.len() > 0
        invariant
            n + input@.len() == all.len(),
            all.len() <= usize::MAX,
            input@ == all.skip(n as int),
            featured@ == all.take(n as int).filter(is_featured()),
            rest@ == all.take(n as int).filter(not_featured()),
        decreases input.len(),
    {
        let x = input.remove(0);
        assert(x == all[n as int]);
        assert(input@ =~= all.skip(n + 1));
        let ghost t = all.take(n as int);
        assert(all.take(n + 1) =~= t.push(x));
        proof {
            t.lemma_filter_push(x, is_featured());
            t.lemma_filter_push(x, not_featured());
        }
        if x.featured {
            featured.push(x);
        } else {
            rest.push(x);
        }
        n = n + 1;
    }
    assert(all.take(n as int) =~= all);
    if featured.len() == 1 {
        let f = featured.remove(0);
        assert(featured@.len() == 0);
        assert(all.filter(is_featured()) =~= seq![f]);
        Ok((f, rest))
    } else {
        Err(featured.len())
    }
}

} // verus!
