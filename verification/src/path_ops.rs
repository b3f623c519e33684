//! Executable path-string operations, each proved against the model:
//! splitting a string into components, rendering component stacks back
//! into absolute or root-relative paths, and the checks the resolver and
//! the handle validation rest on.

use vstd::prelude::*;

use crate::path_model::{
    all_nonempty, all_plain, base_of, canonical_form, joined, lemma_slashed_append, lemma_slashed_single,
    lemma_split_all_nonempty, plain, rel_joined, slashed, split_acc, split_spec, views_of,
};

verus! {

/// The distinguishable failures of path validation.
#[derive(Clone, Copy, Debug, PartialEq, Eq, Structural)]
pub enum PathError {
    /// The root is missing, not a directory, or not in canonical form.
    InvalidRoot,
    /// A symlink cycle or excessive indirection depth was detected.
    TooManySymlinks,
    /// The filesystem entry changed between validation and use.
    RaceDetected,
}

/// Whether the component is the current-directory marker.
pub fn is_dot(c: &str) -> (r: bool)
    ensures
        r == (c@ == seq!['.']),
{
    if c.unicode_len() == 1 {
        let ch = c.get_char(0);
        if ch == '.' {
            proof {
                assert(c@ =~= seq!['.']);
            }
            true
        } else {
            proof {
                assert(c@ != seq!['.']) by {
                    assert(c@[0] != seq!['.'][0]);
                }
            }
            false
        }
    } else {
        proof {
            assert(c@ != seq!['.']) by {
                assert(c@.len() != seq!['.'].len());
            }
        }
        false
    }
}

/// Whether the component is the parent-directory marker.
pub fn is_dotdot(c: &str) -> (r: bool)
    ensures
        r == (c@ == seq!['.', '.']),
{
    if c.unicode_len() == 2 {
        let c0 = c.get_char(0);
        let c1 = c.get_char(1);
        if c0 == '.' && c1 == '.' {
            proof {
                assert(c@ =~= seq!['.', '.']);
            }
            true
        } else {
            proof {
                assert(c@ != seq!['.', '.']) by {
                    if c@ == seq!['.', '.'] {
                        assert(c@[0] == '.' && c@[1] == '.');
                    }
                }
            }
            false
        }
    } else {
        proof {
            assert(c@ != seq!['.', '.']) by {
                assert(c@.len() != seq!['.', '.'].len());
            }
        }
        false
    }
}

/// Whether the component is a plain name.
pub fn is_plain_component(c: &str) -> (r: bool)
    ensures
        r == plain(c@),
{
    if c.unicode_len() == 0 {
        false
    } else if is_dot(c) {
        false
    } else if is_dotdot(c) {
        false
    } else {
        true
    }
}

/// Whether the string equals the filesystem root.
pub fn is_root_str(s: &str) -> (r: bool)
    ensures
        r == (s@ == seq!['/']),
{
    if s.unicode_len() == 1 {
        let ch = s.get_char(0);
        if ch == '/' {
            proof {
                assert(s@ =~= seq!['/']);
            }
            true
        } else {
            proof {
                assert(s@ != seq!['/']) by {
                    assert(s@[0] != seq!['/'][0]);
                }
            }
            false
        }
    } else {
        proof {
            assert(s@ != seq!['/']) by {
                assert(s@.len() != seq!['/'].len());
            }
        }
        false
    }
}

/// Whether two path strings are the same path, character for character.
pub fn paths_match(a: &str, b: &str) -> (r: bool)
    ensures
        r == (a@ == b@),
{
    let sa = a.to_owned();
    let sb = b.to_owned();
    sa == sb
}

/// Split a path string into its components, discarding separators and
/// empty runs.
pub fn split_components(s: &str) -> (r: Vec<String>)
    ensures
        views_of(r@) == split_spec(s@),
        all_nonempty(views_of(r@)),
{
    let n = s.unicode_len();
    let mut r: Vec<String> = Vec::new();
    let mut start: usize = 0;
    let mut i: usize = 0;
    proof {
        assert(s@.skip(0) =~= s@);
        assert(s@.subrange(0, 0) =~= Seq::<char>::empty());
        assert(views_of(r@) + split_acc(s@, Seq::empty()) =~= split_acc(s@, Seq::empty()));
    }
    while i < n
        invariant
            start <= i <= n,
            n == s@.len(),
            split_spec(s@) == views_of(r@) + split_acc(
                s@.skip(i as int),
                s@.subrange(start as int, i as int),
            ),
        decreases n - i,
    {
        let ghost cur = s@.subrange(start as int, i as int);
        proof {
            assert(s@.skip(i as int)[0] == s@[i as int]);
            assert(s@.skip(i as int).drop_first() =~= s@.skip(i as int + 1));
        }
        let ch = s.get_char(i);
        if ch == '/' {
            if i > start {
                let comp = s.substring_char(start, i).to_owned();
                proof {
                    assert(cur.len() > 0);
                    assert(split_acc(s@.skip(i as int), cur) == seq![cur] + split_acc(
                        s@.skip(i as int + 1),
                        Seq::empty(),
                    ));
                }
                let ghost old_r = r@;
                r.push(comp);
                proof {
                    assert(views_of(r@) =~= views_of(old_r).push(cur));
                    assert(views_of(old_r) + (seq![cur] + split_acc(
                        s@.skip(i as int + 1),
                        Seq::empty(),
                    )) =~= views_of(r@) + split_acc(s@.skip(i as int + 1), Seq::empty()));
                }
            } else {
                proof {
                    assert(cur.len() == 0);
                    assert(split_acc(s@.skip(i as int), cur) == split_acc(
                        s@.skip(i as int + 1),
                        Seq::empty(),
                    ));
                }
            }
            start = i + 1;
            proof {
                assert(s@.subrange(start as int, start as int) =~= Seq::<char>::empty());
            }
        } else {
            proof {
                assert(split_acc(s@.skip(i as int), cur) == split_acc(
                    s@.skip(i as int + 1),
                    cur.push(s@[i as int]),
                ));
                assert(cur.push(s@[i as int]) =~= s@.subrange(start as int, i as int + 1));
            }
        }
        i += 1;
    }
    let ghost cur = s@.subrange(start as int, i as int);
    proof {
        assert(s@.skip(i as int) =~= Seq::<char>::empty());
    }
    if i > start {
        let comp = s.substring_char(start, i).to_owned();
        proof {
            assert(cur.len() > 0);
            assert(split_acc(Seq::<char>::empty(), cur) == seq![cur]);
        }
        let ghost old_r = r@;
        r.push(comp);
        proof {
            assert(views_of(r@) =~= views_of(old_r).push(cur));
            assert(views_of(old_r) + seq![cur] =~= views_of(r@));
        }
    } else {
        proof {
            assert(cur.len() == 0);
            assert(split_acc(Seq::<char>::empty(), cur) == Seq::<Seq<char>>::empty());
            assert(views_of(r@) + Seq::<Seq<char>>::empty() =~= views_of(r@));
        }
    }
    proof {
        lemma_split_all_nonempty(s@);
    }
    r
}

/// Render the first `n` components of a stack under a root as an
/// absolute path.
pub fn render_prefix(root: &str, comps: &Vec<String>, n: usize) -> (r: String)
    requires
        n <= comps@.len(),
    ensures
        r@ == joined(root@, views_of(comps@).take(n as int)),
{
    proof {
        reveal_strlit("/");
    }
    let ghost cs = views_of(comps@);
    if n == 0 {
        let r = root.to_owned();
        proof {
            assert(cs.take(0) =~= Seq::<Seq<char>>::empty());
        }
        return r;
    }
    let mut out: String = if is_root_str(root) {
        String::new()
    } else {
        root.to_owned()
    };
    let mut i: usize = 0;
    while i < n
        invariant
            i <= n <= comps@.len(),
            cs == views_of(comps@),
            out@ == base_of(root@) + slashed(cs.take(i as int)),
        decreases n - i,
    {
        out.append("/");
        out.append(comps[i].as_str());
        proof {
            reveal_strlit("/");
            assert(cs.take(i as int + 1) =~= cs.take(i as int) + seq![cs[i as int]]);
            lemma_slashed_append(cs.take(i as int), seq![cs[i as int]]);
            lemma_slashed_single(cs[i as int]);
            assert(out@ =~= base_of(root@) + slashed(cs.take(i as int + 1)));
        }
        i += 1;
    }
    proof {
        assert(cs.take(n as int).len() > 0);
    }
    out
}

/// Render a whole component stack under a root as an absolute path.
pub fn render_under(root: &str, comps: &Vec<String>) -> (r: String)
    ensures
        r@ == joined(root@, views_of(comps@)),
{
    let n = comps.len();
    let r = render_prefix(root, comps, n);
    proof {
        assert(views_of(comps@).take(n as int) =~= views_of(comps@));
    }
    r
}

/// Render a component stack extended by one more name, under a root.
pub fn render_child(root: &str, comps: &Vec<String>, leaf: &str) -> (r: String)
    ensures
        r@ == joined(root@, views_of(comps@).push(leaf@)),
{
    proof {
        reveal_strlit("/");
    }
    let ghost cs = views_of(comps@);
    let mut out = render_under(root, comps);
    if comps.len() == 0 {
        out = if is_root_str(root) {
            String::new()
        } else {
            root.to_owned()
        };
    }
    out.append("/");
    out.append(leaf);
    proof {
        let whole = cs.push(leaf@);
        assert(whole =~= cs + seq![leaf@]);
        lemma_slashed_append(cs, seq![leaf@]);
        lemma_slashed_single(leaf@);
        if cs.len() == 0 {
            assert(slashed(cs) =~= Seq::<char>::empty());
        }
        assert(out@ =~= base_of(root@) + slashed(whole));
    }
    out
}

/// Render a component stack as a path relative to its root: empty for
/// the root itself.
pub fn render_relative(comps: &Vec<String>) -> (r: String)
    ensures
        r@ == rel_joined(views_of(comps@)),
{
    proof {
        reveal_strlit("/");
    }
    let ghost cs = views_of(comps@);
    if comps.len() == 0 {
        return String::new();
    }
    let mut out: String = comps[0].clone();
    let mut i: usize = 1;
    while i < comps.len()
        invariant
            1 <= i <= comps@.len(),
            cs == views_of(comps@),
            cs.len() == comps@.len(),
            out@ == cs[0] + slashed(cs.subrange(1, i as int)),
        decreases comps@.len() - i,
    {
        out.append("/");
        out.append(comps[i].as_str());
        proof {
            reveal_strlit("/");
            assert(cs.subrange(1, i as int + 1) =~= cs.subrange(1, i as int) + seq![cs[i as int]]);
            lemma_slashed_append(cs.subrange(1, i as int), seq![cs[i as int]]);
            lemma_slashed_single(cs[i as int]);
            assert(out@ =~= cs[0] + slashed(cs.subrange(1, i as int + 1)));
        }
        i += 1;
    }
    proof {
        assert(cs.subrange(1, cs.len() as int) =~= cs.drop_first());
    }
    out
}

/// Whether a root string is in canonical form: absolute, no `.` or `..`
/// or empty components, no trailing separator.
pub fn is_canonical_dir_path(s: &str) -> (r: bool)
    ensures
        r == canonical_form(s@),
{
    proof {
        reveal_strlit("/");
    }
    let comps = split_components(s);
    let ghost cs = views_of(comps@);
    let mut i: usize = 0;
    while i < comps.len()
        invariant
            i <= comps@.len(),
            cs == views_of(comps@),
            cs == split_spec(s@),
            forall|k: int| 0 <= k < i ==> plain(#[trigger] cs[k]),
        decreases comps@.len() - i,
    {
        if !is_plain_component(comps[i].as_str()) {
            proof {
                assert(!plain(cs[i as int]));
                assert(!all_plain(split_spec(s@)));
            }
            return false;
        }
        i += 1;
    }
    proof {
        assert(all_plain(split_spec(s@)));
    }
    let rebuilt = render_under("/", &comps);
    proof {
        reveal_strlit("/");
        assert("/"@ =~= seq!['/']);
        assert(rebuilt@ == joined(seq!['/'], split_spec(s@)));
    }
    paths_match(s, rebuilt.as_str())
}

/// The decision at the heart of race detection: a freshly opened handle
/// is trusted only when the path the kernel bound it to is exactly the
/// path that was validated. Succeeds if and only if the two agree.
pub fn confirm_open_target(expected: &str, actual: &str) -> (r: Result<(), PathError>)
    ensures
        r is Ok <==> actual@ == expected@,
        r is Err ==> r == Err::<(), PathError>(PathError::RaceDetected),
{
    if paths_match(expected, actual) {
        Ok(())
    } else {
        Err(PathError::RaceDetected)
    }
}

} // verus!
