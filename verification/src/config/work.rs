//! Configuration of the work page.

use vstd::prelude::*;
use crate::config::projects::{slug_ok, valid_slug};

verus! {

broadcast use vstd::string::group_string_axioms;

/// The work page configuration.
#[derive(Debug, Clone)]
pub struct WorkConfig {
    /// Repositories whose statistics are fetched, as `owner/name`.
    pub tracked_slugs: Vec<String>,
    /// Contributions to other people's projects.
    pub oss_contribs: Vec<OssContrib>,
}

/// A contribution to another project.
#[derive(Debug, Clone)]
pub struct OssContrib {
    /// Repository, as `owner/name`.
    pub slug: String,
    pub name: String,
    pub stars: u64,
}

/// Every tracked slug and every contribution slug names a repository, and
/// every contribution has a name.
pub open spec fn config_ok(c: WorkConfig) -> bool {
    &&& forall|i: int| 0 <= i < c.tracked_slugs@.len() ==> slug_ok(#[trigger] c.tracked_slugs@[i]@)
    &&& forall|i: int| 0 <= i < c.oss_contribs@.len() ==> contrib_ok(#[trigger] c.oss_contribs@[i])
}

/// A contribution names a repository and has a name.
pub open spec fn contrib_ok(c: OssContrib) -> bool {
    slug_ok(c.slug@) && c.name@.len() > 0
}

impl WorkConfig {
    /// Whether the configuration is well formed.
    pub fn is_valid(&self) -> (r: bool)
        ensures
            r == config_ok(*self),
    {
        let mut i: usize = 0;
        while i < self.tracked_slugs.len()
            invariant
                i <= self.tracked_slugs@.len(),
                forall|k: int| 0 <= k < i ==> slug_ok(#[trigger] self.tracked_slugs@[k]@),
            decreases self.tracked_slugs.len() - i,
        {
            if !valid_slug(self.tracked_slugs[i].as_str()) {
                return false;
            }
            i = i + 1;
        }
        let mut j: usize = 0;
        while j < self.oss_contribs.len()
            invariant
                j <= self.oss_contribs@.len(),
                forall|k: int| 0 <= k < self.tracked_slugs@.len() ==> slug_ok(
                    #[trigger] self.tracked_slugs@[k]@,
                ),
                forall|k: int| 0 <= k < j ==> contrib_ok(#[trigger] self.oss_contribs@[k]),
            decreases self.oss_contribs.len() - j,
        {
            let c = &self.oss_contribs[j];
            let ok_slug = valid_slug(c.slug.as_str());
            let no_name = c.name.as_str().is_empty();
            assert(no_name == (c.name@.len() == 0));
            if !ok_slug || no_name {
                return false;
            }
            assert(contrib_ok(self.oss_contribs@[j as int]));
            j = j + 1;
        }
        true
    }
}

} // verus!
