//! Staged directory creation under a trusted root.
//!
//! Creating `a/b/c` under a root is where a symlink swap between a check
//! and the next step is most exploitable. The builder therefore lays the
//! work out as an explicit plan: at every stage the level reached so far
//! must be re-validated through a safe handle and confirmed to be a
//! directory before the next child is created. The plan — which paths
//! are validated, which are created, with which mode, and whether an
//! already-existing final target is an error — is computed and proved
//! here; the driver executes it stage by stage and stops at the first
//! failure.

use vstd::prelude::*;

use crate::path_model::{
    all_plain, canonical_form, contained_in, joined, lemma_resolution_contained, views_of,
};
use crate::path_ops::{is_canonical_dir_path, render_prefix, render_under, PathError};

verus! {

/// Permission bits a directory is created with when none are configured.
pub const DIRECTORY_MODE_DEFAULT: u32 = 0o700;

/// The valid permission-bit range; configured modes are masked to it.
pub const DIRECTORY_MODE_MASK: u32 = 0o777;

/// One stage of a creation walk: the directory that must already exist
/// — validated through a safe handle — and the child to create in it.
pub struct CreateStep {
    /// The level that must exist and be a directory before this stage.
    pub parent: String,
    /// The absolute path of the directory this stage creates.
    pub target: String,
}

/// The whole walk for one creation request.
pub struct CreatePlan {
    /// The stages in order; empty when the request resolves to the root
    /// itself, which exists already and is only validated.
    pub steps: Vec<CreateStep>,
    /// Whether creating the final target must fail if it already exists.
    pub exclusive: bool,
    /// The permission mode every created level receives.
    pub mode: u32,
    /// The absolute path to validate once more and hand back.
    pub result_path: String,
}

/// Safe directory builder: creates one or more directory levels under a
/// fixed root, re-verifying containment and directory-ness at every
/// level to close the window between validation and creation.
#[derive(Debug)]
pub struct SafeDirBuilder {
    root: String,
    mode: u32,
    recursive: bool,
}

impl SafeDirBuilder {
    /// The canonical root every creation stays under.
    pub closed spec fn root_view(self) -> Seq<char> {
        self.root@
    }

    /// The configured permission mode.
    pub closed spec fn mode_view(self) -> u32 {
        self.mode
    }

    /// Whether missing parent levels are created too.
    pub closed spec fn recursive_view(self) -> bool {
        self.recursive
    }

    /// The builder's invariant: its root is in canonical form.
    pub open spec fn inv(self) -> bool {
        canonical_form(self.root_view())
    }

    /// Creates a new builder with the default mode and non-recursive
    /// creation. The root must be the canonicalized path of an existing
    /// directory; a root not in canonical form is refused.
    pub fn new(root: &str) -> (r: Result<SafeDirBuilder, PathError>)
        ensures
            match r {
                Ok(b) => {
                    &&& canonical_form(root@)
                    &&& b.inv()
                    &&& b.root_view() == root@
                    &&& b.mode_view() == DIRECTORY_MODE_DEFAULT
                    &&& !b.recursive_view()
                },
                Err(e) => !canonical_form(root@) && e == PathError::InvalidRoot,
            },
    {
        if !is_canonical_dir_path(root) {
            return Err(PathError::InvalidRoot);
        }
        Ok(
            SafeDirBuilder {
                root: root.to_owned(),
                mode: DIRECTORY_MODE_DEFAULT,
                recursive: false,
            },
        )
    }

    /// Indicates that directories should be created recursively: every
    /// missing parent level is created, with the same settings.
    pub fn recursive(&mut self)
        ensures
            final(self).root_view() == old(self).root_view(),
            final(self).mode_view() == old(self).mode_view(),
            final(self).recursive_view(),
    {
        self.recursive = true;
    }

    /// Sets the mode new directories are created with, masked to the
    /// valid permission-bit range.
    pub fn mode(&mut self, mode: u32)
        ensures
            final(self).root_view() == old(self).root_view(),
            final(self).recursive_view() == old(self).recursive_view(),
            final(self).mode_view() == mode & DIRECTORY_MODE_MASK,
    {
        self.mode = mode & DIRECTORY_MODE_MASK;
    }

    /// The walk to perform for a target that resolved to `comps` under
    /// the root. With no components the target is the root itself:
    /// nothing is created, the root is only validated and handed back.
    /// Non-recursive creation has exactly one stage — every level but
    /// the last must already exist — and insists the final target is
    /// new. Recursive creation has one stage per component, so each
    /// missing level is created with the configured mode after the level
    /// before it has been re-validated.
    pub fn plan_create(&self, comps: &Vec<String>) -> (r: CreatePlan)
        requires
            self.inv(),
            all_plain(views_of(comps@)),
        ensures
            r.mode == self.mode_view(),
            r.result_path@ == joined(self.root_view(), views_of(comps@)),
            contained_in(r.result_path@, self.root_view()),
            comps@.len() == 0 ==> r.steps@.len() == 0 && !r.exclusive,
            comps@.len() > 0 && !self.recursive_view() ==> {
                &&& r.steps@.len() == 1
                &&& r.exclusive
                &&& r.steps@[0].parent@ == joined(
                    self.root_view(),
                    views_of(comps@).take(comps@.len() as int - 1),
                )
                &&& r.steps@[0].target@ == joined(self.root_view(), views_of(comps@))
            },
            comps@.len() > 0 && self.recursive_view() ==> {
                &&& r.steps@.len() == comps@.len()
                &&& !r.exclusive
                &&& forall|i: int|
                    0 <= i < comps@.len() ==> {
                        &&& (#[trigger] r.steps@[i]).parent@ == joined(
                            self.root_view(),
                            views_of(comps@).take(i),
                        )
                        &&& r.steps@[i].target@ == joined(
                            self.root_view(),
                            views_of(comps@).take(i + 1),
                        )
                    }
            },
    {
        proof {
            assert(crate::path_model::all_nonempty(views_of(comps@)));
            lemma_resolution_contained(self.root_view(), views_of(comps@));
        }
        let result_path = render_under(self.root.as_str(), comps);
        let mut steps: Vec<CreateStep> = Vec::new();
        let mut exclusive = false;
        let n = comps.len();
        if n > 0 {
            if !self.recursive {
                exclusive = true;
                let parent = render_prefix(self.root.as_str(), comps, n - 1);
                let target = render_prefix(self.root.as_str(), comps, n);
                proof {
                    assert(views_of(comps@).take(n as int) =~= views_of(comps@));
                }
                steps.push(CreateStep { parent, target });
            } else {
                let mut i: usize = 0;
                while i < n
                    invariant
                        i <= n,
                        n == comps@.len(),
                        steps@.len() == i,
                        forall|k: int|
                            0 <= k < i ==> {
                                &&& (#[trigger] steps@[k]).parent@ == joined(
                                    self.root_view(),
                                    views_of(comps@).take(k),
                                )
                                &&& steps@[k].target@ == joined(
                                    self.root_view(),
                                    views_of(comps@).take(k + 1),
                                )
                            },
                    decreases n - i,
                {
                    let parent = render_prefix(self.root.as_str(), comps, i);
                    let target = render_prefix(self.root.as_str(), comps, i + 1);
                    steps.push(CreateStep { parent, target });
                    i += 1;
                }
            }
        }
        CreatePlan { steps, exclusive, mode: self.mode, result_path }
    }
}

} // verus!
