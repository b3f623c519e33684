//! Mathematical model of paths: a path string is split into components,
//! components are normalized against a working stack, and component stacks
//! are rendered back into path strings rooted at a trusted directory.

use vstd::prelude::*;

verus! {

/// A path component is plain when it is a real name: nonempty and neither
/// the current-directory marker `.` nor the parent-directory marker `..`.
pub open spec fn plain(c: Seq<char>) -> bool {
    c.len() > 0 && c != seq!['.'] && c != seq!['.', '.']
}

pub open spec fn all_plain(cs: Seq<Seq<char>>) -> bool {
    forall|i: int| 0 <= i < cs.len() ==> plain(#[trigger] cs[i])
}

pub open spec fn all_nonempty(cs: Seq<Seq<char>>) -> bool {
    forall|i: int| 0 <= i < cs.len() ==> (#[trigger] cs[i]).len() > 0
}

/// The views of a sequence of owned component strings.
pub open spec fn views_of(v: Seq<String>) -> Seq<Seq<char>> {
    v.map_values(|s: String| s@)
}

/// Splitting a path string into components, carrying the run of characters
/// read since the last separator: separators delimit components and empty
/// runs are discarded.
pub open spec fn split_acc(s: Seq<char>, cur: Seq<char>) -> Seq<Seq<char>>
    decreases s.len(),
{
    if s.len() == 0 {
        if cur.len() == 0 {
            Seq::empty()
        } else {
            seq![cur]
        }
    } else if s[0] == '/' {
        if cur.len() == 0 {
            split_acc(s.drop_first(), Seq::empty())
        } else {
            seq![cur] + split_acc(s.drop_first(), Seq::empty())
        }
    } else {
        split_acc(s.drop_first(), cur.push(s[0]))
    }
}

/// The components of a path string: the maximal nonempty runs of
/// characters between separators.
pub open spec fn split_spec(s: Seq<char>) -> Seq<Seq<char>> {
    split_acc(s, Seq::empty())
}

/// The prefix that components are appended to: the root itself, except
/// that the filesystem root `/` contributes nothing, so that joining
/// never produces a doubled separator.
pub open spec fn base_of(root: Seq<char>) -> Seq<char> {
    if root == seq!['/'] {
        Seq::empty()
    } else {
        root
    }
}

/// Components rendered with a separator in front of each one.
pub open spec fn slashed(cs: Seq<Seq<char>>) -> Seq<char>
    decreases cs.len(),
{
    if cs.len() == 0 {
        Seq::empty()
    } else {
        seq!['/'] + cs[0] + slashed(cs.drop_first())
    }
}

/// The absolute path for a stack of components under a root: the root
/// itself when the stack is empty, else the root followed by each
/// component behind a separator.
pub open spec fn joined(root: Seq<char>, cs: Seq<Seq<char>>) -> Seq<char> {
    if cs.len() == 0 {
        root
    } else {
        base_of(root) + slashed(cs)
    }
}

/// The root-relative path for a stack of components: empty for the root
/// itself, else the components joined by separators with no leading one.
pub open spec fn rel_joined(cs: Seq<Seq<char>>) -> Seq<char> {
    if cs.len() == 0 {
        Seq::empty()
    } else {
        cs[0] + slashed(cs.drop_first())
    }
}

/// A root string is in canonical form when it is absolute, has no `.` or
/// `..` components, no empty components and no trailing separator: it
/// reads back unchanged from its own components.
pub open spec fn canonical_form(s: Seq<char>) -> bool {
    all_plain(split_spec(s)) && s == joined(seq!['/'], split_spec(s))
}

/// Normalization of the pending components against a working stack, up to
/// the next real name: `.` is dropped and `..` pops the stack, but never
/// past the root. Stops at the first plain name or at the end, returning
/// the working stack and the remaining pending components.
pub open spec fn scan(w: Seq<Seq<char>>, p: Seq<Seq<char>>) -> (Seq<Seq<char>>, Seq<Seq<char>>)
    decreases p.len(),
{
    if p.len() == 0 {
        (w, p)
    } else if p[0] == seq!['.'] {
        scan(w, p.drop_first())
    } else if p[0] == seq!['.', '.'] {
        scan(if w.len() == 0 { w } else { w.drop_last() }, p.drop_first())
    } else {
        (w, p)
    }
}

/// A path string is contained in a root when it is the root itself or
/// lies strictly under it, behind a separator.
pub open spec fn contained_in(p: Seq<char>, root: Seq<char>) -> bool {
    p == root || (p.len() > base_of(root).len() && p.subrange(
        0,
        base_of(root).len() as int + 1,
    ) == base_of(root).push('/'))
}

/// One rendered component is the separator followed by the name.
pub proof fn lemma_slashed_single(c: Seq<char>)
    ensures
        slashed(seq![c]) == seq!['/'] + c,
{
    assert(seq![c].drop_first() =~= Seq::<Seq<char>>::empty());
    assert(slashed(Seq::<Seq<char>>::empty()) == Seq::<char>::empty());
    assert(slashed(seq![c]) =~= seq!['/'] + c);
}

/// Rendering distributes over concatenation of component stacks.
pub proof fn lemma_slashed_append(a: Seq<Seq<char>>, b: Seq<Seq<char>>)
    ensures
        slashed(a + b) == slashed(a) + slashed(b),
    decreases a.len(),
{
    if a.len() == 0 {
        assert(a + b =~= b);
        assert(slashed(a) + slashed(b) =~= slashed(b));
    } else {
        assert((a + b).drop_first() =~= a.drop_first() + b);
        lemma_slashed_append(a.drop_first(), b);
        assert(slashed(a + b) =~= slashed(a) + slashed(b));
    }
}

/// Every component produced by splitting is nonempty.
pub proof fn lemma_split_acc_nonempty(s: Seq<char>, cur: Seq<char>)
    ensures
        all_nonempty(split_acc(s, cur)),
    decreases s.len(),
{
    if s.len() == 0 {
    } else if s[0] == '/' {
        lemma_split_acc_nonempty(s.drop_first(), Seq::empty());
    } else {
        lemma_split_acc_nonempty(s.drop_first(), cur.push(s[0]));
    }
}

pub proof fn lemma_split_all_nonempty(s: Seq<char>)
    ensures
        all_nonempty(split_spec(s)),
{
    lemma_split_acc_nonempty(s, Seq::empty());
}

/// A leading separator contributes no component: an absolute target reads
/// as the same components as its root-relative form.
pub proof fn lemma_split_leading_sep(t: Seq<char>)
    ensures
        split_spec(seq!['/'] + t) == split_spec(t),
{
    let s = seq!['/'] + t;
    assert(s[0] == '/');
    assert(s.drop_first() =~= t);
}

/// Normalization preserves the shape the resolver relies on: the working
/// stack stays plain, the remaining components stay nonempty, and when it
/// stops early the head of the remainder is a plain name.
pub proof fn lemma_scan_inv(w: Seq<Seq<char>>, p: Seq<Seq<char>>)
    requires
        all_plain(w),
        all_nonempty(p),
    ensures
        all_plain(scan(w, p).0),
        all_nonempty(scan(w, p).1),
        scan(w, p).1.len() > 0 ==> plain(scan(w, p).1[0]),
    decreases p.len(),
{
    if p.len() == 0 {
    } else if p[0] == seq!['.'] {
        assert(all_nonempty(p.drop_first()));
        lemma_scan_inv(w, p.drop_first());
    } else if p[0] == seq!['.', '.'] {
        let w2 = if w.len() == 0 { w } else { w.drop_last() };
        assert(all_plain(w2));
        assert(all_nonempty(p.drop_first()));
        lemma_scan_inv(w2, p.drop_first());
    } else {
        assert(p[0].len() > 0);
    }
}

/// Containment invariant: joining any stack of nonempty components under
/// a root yields the root itself or a path strictly under it.
pub proof fn lemma_resolution_contained(root: Seq<char>, cs: Seq<Seq<char>>)
    requires
        all_nonempty(cs),
    ensures
        contained_in(joined(root, cs), root),
{
    if cs.len() == 0 {
    } else {
        let b = base_of(root);
        let j = joined(root, cs);
        assert(cs[0].len() > 0);
        assert(slashed(cs) == seq!['/'] + cs[0] + slashed(cs.drop_first()));
        assert(j.len() > b.len());
        assert(j.subrange(0, b.len() as int + 1) =~= b.push('/'));
    }
}

/// The relative and the absolute form agree: the absolute result is the
/// root with the relative result appended behind one separator, and the
/// two coincide exactly on the root itself.
pub proof fn lemma_relative_absolute_concat(root: Seq<char>, cs: Seq<Seq<char>>)
    ensures
        cs.len() == 0 ==> joined(root, cs) == root && rel_joined(cs) == Seq::<char>::empty(),
        cs.len() > 0 ==> joined(root, cs) == base_of(root) + seq!['/'] + rel_joined(cs),
{
    if cs.len() > 0 {
        assert(slashed(cs) == seq!['/'] + cs[0] + slashed(cs.drop_first()));
        assert(base_of(root) + slashed(cs) =~= base_of(root) + seq!['/'] + rel_joined(cs));
    }
}

/// Resolving the empty path or the bare current-directory marker against
/// any root leaves the working stack empty, so the result is the root.
pub proof fn lemma_trivial_candidate(c: Seq<char>)
    requires
        c == seq!['.'] || c == Seq::<char>::empty(),
    ensures
        scan(Seq::<Seq<char>>::empty(), split_spec(c)).0 == Seq::<Seq<char>>::empty(),
        scan(Seq::<Seq<char>>::empty(), split_spec(c)).1.len() == 0,
{
    if c == seq!['.'] {
        assert(c[0] == '.');
        assert(c[0] != '/');
        assert(c.drop_first() =~= Seq::<char>::empty());
        assert(split_acc(c, Seq::empty()) == split_acc(
            Seq::<char>::empty(),
            Seq::<char>::empty().push('.'),
        ));
        assert(Seq::<char>::empty().push('.') =~= seq!['.']);
        assert(split_spec(c) == seq![seq!['.']]);
        assert(split_spec(c)[0] == seq!['.']);
        assert(split_spec(c).drop_first() =~= Seq::<Seq<char>>::empty());
        assert(scan(Seq::<Seq<char>>::empty(), split_spec(c)) == scan(
            Seq::<Seq<char>>::empty(),
            Seq::<Seq<char>>::empty(),
        ));
        assert(scan(Seq::<Seq<char>>::empty(), Seq::<Seq<char>>::empty()).1.len() == 0);
    } else {
        assert(split_spec(c) =~= Seq::<Seq<char>>::empty());
        assert(scan(Seq::<Seq<char>>::empty(), split_spec(c)).1.len() == 0);
    }
}

/// A chain of parent-directory markers at least as long as the working
/// stack drains it completely and stops there: resolution ends at the
/// root, never above it.
pub proof fn lemma_parent_chain_clamps(w: Seq<Seq<char>>, p: Seq<Seq<char>>)
    requires
        forall|i: int| 0 <= i < p.len() ==> #[trigger] p[i] == seq!['.', '.'],
        p.len() >= w.len(),
    ensures
        scan(w, p).0 == Seq::<Seq<char>>::empty(),
        scan(w, p).1.len() == 0,
    decreases p.len(),
{
    if p.len() == 0 {
        assert(w.len() == 0);
        assert(w =~= Seq::<Seq<char>>::empty());
    } else {
        assert(p[0] == seq!['.', '.']);
        assert(p[0] != seq!['.']);
        let w2 = if w.len() == 0 { w } else { w.drop_last() };
        assert(forall|i: int|
            0 <= i < p.drop_first().len() ==> #[trigger] p.drop_first()[i] == seq!['.', '.']);
        lemma_parent_chain_clamps(w2, p.drop_first());
    }
}

} // verus!
