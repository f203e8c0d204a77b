//! Configuration of the projects page.

use vstd::prelude::*;
use crate::text::{contains, find_at, to_chars};

verus! {

broadcast use vstd::string::group_string_axioms;

/// The projects page configuration.
#[derive(Debug, Clone)]
pub struct ProjectsConfig {
    /// Repositories whose statistics are fetched, as `owner/name`.
    pub tracked_slugs: Vec<String>,
    /// Contributions to other people's projects.
    pub oss_contribs: Vec<OssContrib>,
}

/// A contribution to another project.
#[derive(Debug, Clone)]
pub struct OssContrib {
    /// Repository, as `owner/name`.
    pub slug: String,
    pub name: String,
    pub stars: u64,
}

/// A repository slug names an owner and a repository: it is not empty and
/// holds a `/`.
pub open spec fn slug_ok(slug: Seq<char>) -> bool {
    slug.len() > 0 && contains(slug, seq!['/'])
}

/// Whether a slug names an owner and a repository.
pub fn valid_slug(slug: &str) -> (r: bool)
    ensures
        r == slug_ok(slug@),
{
    let chars = to_chars(slug);
    let slash: Vec<char> = vec!['/'];
    assert(slash@ =~= seq!['/']);
    chars.len() > 0 && find_at(chars.as_slice(), slash.as_slice(), 0).is_some()
}

/// Every tracked slug and every contribution slug names a repository, and
/// every contribution has a name.
pub open spec fn config_ok(c: ProjectsConfig) -> bool {
    &&& forall|i: int| 0 <= i < c.tracked_slugs@.len() ==> slug_ok(#[trigger] c.tracked_slugs@[i]@)
    &&& forall|i: int| 0 <= i < c.oss_contribs@.len() ==> contrib_ok(#[trigger] c.oss_contribs@[i])
}

/// A contribution names a repository and has a name.
pub open spec fn contrib_ok(c: OssContrib) -> bool {
    slug_ok(c.slug@) && c.name@.len() > 0
}

impl ProjectsConfig {
    /// Whether the configuration is well formed.
    pub fn is_valid(&self) -> (r: bool)
        ensures
            r == config_ok(*self),
    {
        let mut i: usize = 0;
        while i < self.tracked_slugs.len()
            invariant
                i <= self.tracked_slugs@.len(),
                forall|k: int| 0 <= k < i ==> slug_ok(#[trigger] self.tracked_slugs@[k]@),
            decreases self.tracked_slugs.len() - i,
        {
            if !valid_slug(self.tracked_slugs[i].as_str()) {
                return false;
            }
            i = i + 1;
        }
        let mut j: usize = 0;
        while j < self.oss_contribs.len()
            invariant
                j <= self.oss_contribs@.len(),
                forall|k: int| 0 <= k < self.tracked_slugs@.len() ==> slug_ok(
                    #[trigger] self.tracked_slugs@[k]@,
                ),
                forall|k: int| 0 <= k < j ==> contrib_ok(#[trigger] self.oss_contribs@[k]),
            decreases self.oss_contribs.len() - j,
        {
            let c = &self.oss_contribs[j];
            let ok_slug = valid_slug(c.slug.as_str());
            let no_name = c.name.as_str().is_empty();
            assert(no_name == (c.name@.len() == 0));
            if !ok_slug || no_name {
                return false;
            }
            assert(contrib_ok(self.oss_contribs@[j as int]));
            j = j + 1;
        }
        true
    }
}

} // verus!
