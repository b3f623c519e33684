//! The symlink-aware path resolver: a state machine that maps an
//! untrusted candidate path to a path contained under a trusted root.
//!
//! The resolver itself performs no filesystem access. It walks the
//! candidate component by component; whenever the walk reaches a plain
//! name it hands the driver the tentative absolute path and waits to be
//! told whether that path is a symlink. A symlink's target components are
//! fed back into the same walk, an absolute target being re-rooted at the
//! root rather than at the real filesystem root, and the number of
//! expansions is bounded so that a symlink cycle fails instead of looping.
//! Whatever answers the driver supplies, every path the resolver emits —
//! each tentative lookup path and the final result — is the root or lies
//! strictly under it.

use vstd::prelude::*;

use crate::path_model::{
    all_nonempty, all_plain, canonical_form, contained_in, joined, lemma_resolution_contained,
    plain, rel_joined, scan, split_spec, views_of,
};
use crate::path_ops::{
    is_canonical_dir_path, is_dot, is_dotdot, render_child, render_relative, render_under,
    split_components, PathError,
};

verus! {

/// How many symlink expansions one resolution may perform before it
/// fails; a conservative bound matching common kernel defaults.
pub const MAX_SYMLINK_EXPANSIONS: u32 = 40;

/// What the resolver needs from its driver next.
pub enum Step {
    /// Report whether this absolute path is currently a symlink.
    Lookup(String),
    /// The walk is complete; the result can be read off.
    Done,
}

/// The driver's answer to a lookup.
pub enum LinkCheck {
    /// The tentative path is not a symlink (it may not exist at all).
    NotALink,
    /// The tentative path is a symlink with this target.
    LinkTo(String),
}

/// The resolution state: the root, the components resolved so far (all
/// plain names), the components still to walk, the name awaiting a
/// lookup answer, and the count of symlink expansions performed.
#[derive(Debug)]
pub struct Resolver {
    root: String,
    working: Vec<String>,
    pending: Vec<String>,
    tentative: Option<String>,
    expansions: u32,
}

impl Resolver {
    /// The root all results stay under.
    pub closed spec fn root_view(self) -> Seq<char> {
        self.root@
    }

    /// The components resolved so far, under the root.
    pub closed spec fn working_view(self) -> Seq<Seq<char>> {
        views_of(self.working@)
    }

    /// The components still to be walked.
    pub closed spec fn pending_view(self) -> Seq<Seq<char>> {
        views_of(self.pending@)
    }

    /// The name whose lookup answer is awaited, if any.
    pub closed spec fn awaiting(self) -> Option<Seq<char>> {
        match self.tentative {
            Some(s) => Some(s@),
            None => None,
        }
    }

    /// How many symlink expansions have been performed.
    pub closed spec fn expansion_count(self) -> u32 {
        self.expansions
    }

    /// The resolver's invariant: the root is canonical, everything on the
    /// working stack is a plain name, and no queued component is empty.
    pub open spec fn inv(self) -> bool {
        &&& canonical_form(self.root_view())
        &&& all_plain(self.working_view())
        &&& all_nonempty(self.pending_view())
        &&& (self.awaiting() matches Some(c) ==> plain(c))
    }

    /// Begin resolving `candidate` against `root`. The root must be in
    /// canonical form (as a canonicalized existing directory path is);
    /// otherwise resolution is refused.
    pub fn new(root: &str, candidate: &str) -> (r: Result<Resolver, PathError>)
        ensures
            match r {
                Ok(res) => {
                    &&& canonical_form(root@)
                    &&& res.inv()
                    &&& res.root_view() == root@
                    &&& res.working_view() == Seq::<Seq<char>>::empty()
                    &&& res.pending_view() == split_spec(candidate@)
                    &&& res.awaiting() is None
                    &&& res.expansion_count() == 0
                },
                Err(e) => !canonical_form(root@) && e == PathError::InvalidRoot,
            },
    {
        if !is_canonical_dir_path(root) {
            return Err(PathError::InvalidRoot);
        }
        let pending = split_components(candidate);
        let res = Resolver {
            root: root.to_owned(),
            working: Vec::new(),
            pending,
            tentative: None,
            expansions: 0,
        };
        proof {
            assert(views_of(res.working@) =~= Seq::<Seq<char>>::empty());
        }
        Ok(res)
    }

    /// Advance the walk to the next filesystem question, or to
    /// completion. `.` components are dropped and `..` pops the working
    /// stack — a no-op when the stack is already empty, so the walk can
    /// never climb above the root. At the first plain name the tentative
    /// absolute path is handed out for a symlink check.
    pub fn next(&mut self) -> (r: Step)
        requires
            old(self).inv(),
            old(self).awaiting() is None,
        ensures
            final(self).inv(),
            final(self).root_view() == old(self).root_view(),
            final(self).expansion_count() == old(self).expansion_count(),
            ({
                let (w2, p2) = scan(old(self).working_view(), old(self).pending_view());
                &&& (p2.len() == 0 ==> {
                    &&& r is Done
                    &&& final(self).working_view() == w2
                    &&& final(self).pending_view().len() == 0
                    &&& final(self).awaiting() is None
                })
                &&& (p2.len() > 0 ==> {
                    &&& (r matches Step::Lookup(q) && q@ == joined(
                        old(self).root_view(),
                        w2.push(p2[0]),
                    ) && contained_in(q@, old(self).root_view()))
                    &&& final(self).working_view() == w2
                    &&& final(self).pending_view() == p2.drop_first()
                    &&& final(self).awaiting() == Some(p2[0])
                })
            }),
    {
        loop
            invariant
                self.inv(),
                self.awaiting() is None,
                self.root_view() == old(self).root_view(),
                self.expansion_count() == old(self).expansion_count(),
                scan(old(self).working_view(), old(self).pending_view()) == scan(
                    self.working_view(),
                    self.pending_view(),
                ),
            decreases self.pending_view().len(),
        {
            let ghost pre_w = self.working_view();
            let ghost pre_p = self.pending_view();
            if self.pending.len() == 0 {
                proof {
                    assert(scan(pre_w, pre_p) == (pre_w, pre_p));
                }
                return Step::Done;
            }
            let c = self.pending.remove(0);
            proof {
                assert(c@ == pre_p[0]);
                assert(views_of(self.pending@) =~= pre_p.drop_first());
            }
            if is_dot(c.as_str()) {
                proof {
                    assert(scan(pre_w, pre_p) == scan(pre_w, pre_p.drop_first()));
                }
            } else if is_dotdot(c.as_str()) {
                if self.working.len() > 0 {
                    let ghost before = views_of(self.working@);
                    self.working.pop();
                    proof {
                        assert(views_of(self.working@) =~= before.drop_last());
                    }
                }
                proof {
                    assert(scan(pre_w, pre_p) == scan(
                        self.working_view(),
                        pre_p.drop_first(),
                    ));
                }
            } else {
                proof {
                    assert(pre_p[0].len() > 0);
                    assert(plain(c@));
                    assert(scan(pre_w, pre_p) == (pre_w, pre_p));
                    assert(all_nonempty(pre_w.push(c@)));
                    lemma_resolution_contained(self.root_view(), pre_w.push(c@));
                }
                let path = render_child(self.root.as_str(), &self.working, c.as_str());
                self.tentative = Some(c);
                return Step::Lookup(path);
            }
        }
    }

    /// Record the driver's answer for the tentative name. A non-symlink
    /// (present or not) is accepted onto the working stack. A symlink's
    /// target is split and queued in front of the remaining components;
    /// an absolute target clears the working stack, so it resolves as
    /// rooted at the root, never at the real filesystem root. Fails
    /// exactly when the expansion bound is already exhausted, so a
    /// symlink cycle ends in an error rather than an endless walk.
    pub fn feed(&mut self, found: LinkCheck) -> (r: Result<(), PathError>)
        requires
            old(self).inv(),
            old(self).awaiting() is Some,
        ensures
            final(self).inv(),
            final(self).root_view() == old(self).root_view(),
            final(self).awaiting() is None,
            match found {
                LinkCheck::NotALink => {
                    &&& r is Ok
                    &&& final(self).working_view() == old(self).working_view().push(
                        old(self).awaiting()->Some_0,
                    )
                    &&& final(self).pending_view() == old(self).pending_view()
                    &&& final(self).expansion_count() == old(self).expansion_count()
                },
                LinkCheck::LinkTo(t) => {
                    if old(self).expansion_count() < MAX_SYMLINK_EXPANSIONS {
                        &&& r is Ok
                        &&& final(self).expansion_count() == old(self).expansion_count() + 1
                        &&& (t@.len() > 0 && t@[0] == '/' ==> final(self).working_view()
                            == Seq::<Seq<char>>::empty())
                        &&& (!(t@.len() > 0 && t@[0] == '/') ==> final(self).working_view() == old(
                            self,
                        ).working_view())
                        &&& final(self).pending_view() == split_spec(t@) + old(self).pending_view()
                    } else {
                        &&& r == Err::<(), PathError>(PathError::TooManySymlinks)
                        &&& final(self).working_view() == old(self).working_view()
                        &&& final(self).pending_view() == old(self).pending_view()
                        &&& final(self).expansion_count() == old(self).expansion_count()
                    }
                },
            },
    {
        let name = self.tentative.take();
        match found {
            LinkCheck::NotALink => {
                match name {
                    Some(n) => {
                        let ghost before = views_of(self.working@);
                        self.working.push(n);
                        proof {
                            assert(views_of(self.working@) =~= before.push(n@));
                        }
                        Ok(())
                    },
                    None => {
                        proof {
                            assert(false);
                        }
                        Ok(())
                    },
                }
            },
            LinkCheck::LinkTo(target) => {
                if self.expansions >= MAX_SYMLINK_EXPANSIONS {
                    Err(PathError::TooManySymlinks)
                } else {
                    self.expansions = self.expansions + 1;
                    let absolute = target.as_str().unicode_len() > 0 && target.as_str().get_char(0)
                        == '/';
                    if absolute {
                        self.working = Vec::new();
                        proof {
                            assert(views_of(self.working@) =~= Seq::<Seq<char>>::empty());
                        }
                    }
                    let mut comps = split_components(target.as_str());
                    let ghost comps_v = views_of(comps@);
                    let ghost pend_v = views_of(self.pending@);
                    comps.append(&mut self.pending);
                    proof {
                        assert(views_of(comps@) =~= comps_v + pend_v);
                    }
                    self.pending = comps;
                    proof {
                        assert(all_nonempty(self.pending_view()));
                    }
                    Ok(())
                }
            },
        }
    }

    /// Whether the walk is complete: nothing pending and no lookup open.
    pub fn finished(&self) -> (r: bool)
        ensures
            r == (self.pending_view().len() == 0 && self.awaiting() is None),
    {
        self.pending.len() == 0 && self.tentative.is_none()
    }

    /// The absolute resolved path: the root with every resolved
    /// component appended, always contained in the root. Meaningful once
    /// the walk is finished.
    pub fn absolute(&self) -> (r: String)
        requires
            self.inv(),
        ensures
            r@ == joined(self.root_view(), self.working_view()),
            contained_in(r@, self.root_view()),
    {
        proof {
            assert(all_nonempty(self.working_view()));
            lemma_resolution_contained(self.root_view(), self.working_view());
        }
        render_under(self.root.as_str(), &self.working)
    }

    /// The resolved path relative to the root: empty when the result is
    /// the root itself. Meaningful once the walk is finished.
    pub fn relative(&self) -> (r: String)
        ensures
            r@ == rel_joined(self.working_view()),
    {
        render_relative(&self.working)
    }

    /// The resolved components under the root, as owned strings.
    pub fn components(&self) -> (r: Vec<String>)
        ensures
            views_of(r@) == self.working_view(),
    {
        let mut out: Vec<String> = Vec::new();
        let mut i: usize = 0;
        while i < self.working.len()
            invariant
                i <= self.working@.len(),
                views_of(out@) == self.working_view().take(i as int),
            decreases self.working@.len() - i,
        {
            let ghost before = views_of(out@);
            out.push(self.working[i].clone());
            proof {
                assert(views_of(out@) =~= before.push(self.working@[i as int]@));
                assert(self.working_view().take(i as int + 1) =~= self.working_view().take(
                    i as int,
                ).push(self.working_view()[i as int]));
            }
            i += 1;
        }
        proof {
            assert(self.working_view().take(self.working@.len() as int) =~= self.working_view());
        }
        out
    }
}

} // verus!
