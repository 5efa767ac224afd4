use vstd::prelude::*;
use std::collections::HashMap;

verus! {

broadcast use vstd::std_specs::hash::group_hash_axioms;

/// The bone that each node of a model stands for: the last joint of the
/// skin that names the node.
pub open spec fn bone_map(nodes: Seq<usize>) -> Map<usize, usize>
    decreases nodes.len(),
{
    if nodes.len() == 0 {
        Map::empty()
    } else {
        bone_map(nodes.drop_last()).insert(nodes.last(), (nodes.len() - 1) as usize)
    }
}

/// The links `(parent, child)` that the child nodes `kids` of bone
/// `parent` give, in order; child nodes that are no joint give none.
pub open spec fn child_links(bones: Map<usize, usize>, parent: usize, kids: Seq<usize>) -> Seq<
    (usize, usize),
>
    decreases kids.len(),
{
    if kids.len() == 0 {
        Seq::empty()
    } else {
        let prev = child_links(bones, parent, kids.drop_last());
        if bones.contains_key(kids.last()) {
            prev.push((parent, bones[kids.last()]))
        } else {
            prev
        }
    }
}

/// The child nodes of each joint, as sequences.
pub open spec fn kids_view(kids: Seq<Vec<usize>>) -> Seq<Seq<usize>> {
    Seq::new(kids.len(), |i: int| kids[i]@)
}

/// All links of the first `j` joints, joint by joint, each joint standing
/// for the bone that its node maps to.
pub open spec fn skeleton_links(nodes: Seq<usize>, kids: Seq<Seq<usize>>, j: nat) -> Seq<
    (usize, usize),
>
    decreases j,
{
    if j == 0 {
        Seq::empty()
    } else {
        let bones = bone_map(nodes);
        skeleton_links(nodes, kids, (j - 1) as nat) + child_links(
            bones,
            bones[nodes[j - 1]],
            kids[j - 1],
        )
    }
}

/// Parents and children of `n` bones after applying `links` in order: a
/// link appends the child to its parent's children and makes the parent
/// the child's parent, replacing any earlier one.
pub open spec fn apply_links(n: nat, links: Seq<(usize, usize)>) -> (
    Seq<Option<usize>>,
    Seq<Seq<usize>>,
)
    decreases links.len(),
{
    if links.len() == 0 {
        (Seq::new(n, |i: int| None), Seq::new(n, |i: int| Seq::empty()))
    } else {
        let prev = apply_links(n, links.drop_last());
        let link = links.last();
        (prev.0.update(link.1 as int, Some(link.0)), prev.1.update(link.0 as int, prev.1[link.0 as int].push(link.1)))
    }
}

/// The bones without a parent, in increasing order.
pub open spec fn roots_of(parents: Seq<Option<usize>>, n: nat) -> Seq<usize>
    decreases n,
{
    if n == 0 {
        Seq::empty()
    } else {
        let prev = roots_of(parents, (n - 1) as nat);
        if parents[n - 1] is None {
            prev.push((n - 1) as usize)
        } else {
            prev
        }
    }
}

/// The hierarchy of a skin's bones.
pub struct SkeletonLinks {
    pub parents: Vec<Option<usize>>,
    pub children: Vec<Vec<usize>>,
    pub root_bones: Vec<usize>,
}

proof fn lemma_bone_map_bounded(nodes: Seq<usize>)
    ensures
        forall|k: usize| #[trigger]
            bone_map(nodes).contains_key(k) ==> bone_map(nodes)[k] < nodes.len(),
        forall|i: int| 0 <= i < nodes.len() ==> bone_map(nodes).contains_key(#[trigger] nodes[i]),
    decreases nodes.len(),
{
    if nodes.len() > 0 {
        lemma_bone_map_bounded(nodes.drop_last());
        let prev = bone_map(nodes.drop_last());
        assert forall|k: usize| #[trigger] bone_map(nodes).contains_key(k) implies bone_map(
            nodes,
        )[k] < nodes.len() by {
            if k != nodes.last() {
                assert(prev.contains_key(k));
            }
        }
        assert forall|i: int| 0 <= i < nodes.len() implies bone_map(nodes).contains_key(
            #[trigger] nodes[i],
        ) by {
            if i < nodes.len() - 1 {
                assert(nodes.drop_last()[i] == nodes[i]);
            }
        }
    }
}

/// Every link joins two of the first `n` bones.
pub open spec fn links_within(links: Seq<(usize, usize)>, n: nat) -> bool {
    forall|i: int| 0 <= i < links.len() ==> (#[trigger] links[i]).0 < n && links[i].1 < n
}

proof fn lemma_links_within_concat(a: Seq<(usize, usize)>, b: Seq<(usize, usize)>, n: nat)
    requires
        links_within(a, n),
        links_within(b, n),
    ensures
        links_within(a + b, n),
{
    assert forall|i: int| 0 <= i < (a + b).len() implies (#[trigger] (a + b)[i]).0 < n && (a
        + b)[i].1 < n by {
        if i < a.len() {
            assert((a + b)[i] == a[i]);
        } else {
            assert((a + b)[i] == b[i - a.len()]);
        }
    }
}

proof fn lemma_apply_links_len(n: nat, links: Seq<(usize, usize)>)
    requires
        links_within(links, n),
    ensures
        apply_links(n, links).0.len() == n,
        apply_links(n, links).1.len() == n,
    decreases links.len(),
{
    if links.len() > 0 {
        assert(links_within(links.drop_last(), n)) by {
            assert forall|i: int| 0 <= i < links.drop_last().len() implies (
            #[trigger] links.drop_last()[i]).0 < n && links.drop_last()[i].1 < n by {
                assert(links.drop_last()[i] == links[i]);
            }
        }
        lemma_apply_links_len(n, links.drop_last());
        assert(links[links.len() - 1] == links.last());
    }
}

proof fn lemma_child_links_bounded(bones: Map<usize, usize>, parent: usize, kids: Seq<usize>, n: nat)
    requires
        parent < n,
        forall|k: usize| #[trigger] bones.contains_key(k) ==> bones[k] < n,
    ensures
        links_within(child_links(bones, parent, kids), n),
    decreases kids.len(),
{
    if kids.len() > 0 {
        lemma_child_links_bounded(bones, parent, kids.drop_last(), n);
        let prev = child_links(bones, parent, kids.drop_last());
        if bones.contains_key(kids.last()) {
            let cur = prev.push((parent, bones[kids.last()]));
            assert forall|i: int| 0 <= i < cur.len() implies (#[trigger] cur[i]).0 < n && cur[i].1
                < n by {
                if i < prev.len() {
                    assert(cur[i] == prev[i]);
                }
            }
        }
    }
}

/// The bone of each node that is a joint (see `bone_map`), as a map.
fn node_bone_map(nodes: &Vec<usize>) -> (m: HashMap<usize, usize>)
    ensures
        m@ == bone_map(nodes@),
{
    let mut m: HashMap<usize, usize> = HashMap::new();
    let mut i: usize = 0;
    while i < nodes.len()
        invariant
            0 <= i <= nodes@.len(),
            m@ == bone_map(nodes@.take(i as int)),
        decreases nodes@.len() - i,
    {
        assert(nodes@.take(i as int + 1).drop_last() =~= nodes@.take(i as int));
        m.insert(nodes[i], i);
        i = i + 1;
    }
    assert(nodes@.take(nodes@.len() as int) =~= nodes@);
    m
}

/// The animation channels that drive a bone, in order: for each channel
/// whose target node is a joint, its position among the channels and the
/// bone of that node; the others are left out.
pub open spec fn kept_channels(bones: Map<usize, usize>, targets: Seq<usize>) -> Seq<(usize, usize)>
    decreases targets.len(),
{
    if targets.len() == 0 {
        Seq::empty()
    } else {
        let prev = kept_channels(bones, targets.drop_last());
        if bones.contains_key(targets.last()) {
            prev.push(((targets.len() - 1) as usize, bones[targets.last()]))
        } else {
            prev
        }
    }
}

/// Picks the animation channels that a skin can play: `nodes[j]` is the
/// node of joint `j` and `targets[i]` the node that channel `i` animates.
/// Returns, in channel order, each kept channel's position with the bone it
/// drives.
pub fn channel_bones(nodes: &Vec<usize>, targets: &Vec<usize>) -> (kept: Vec<(usize, usize)>)
    ensures
        kept@ == kept_channels(bone_map(nodes@), targets@),
{
    let node_to_bone = node_bone_map(nodes);
    let ghost bones = bone_map(nodes@);
    let mut kept: Vec<(usize, usize)> = Vec::new();
    let mut i: usize = 0;
    while i < targets.len()
        invariant
            0 <= i <= targets@.len(),
            node_to_bone@ == bones,
            kept@ == kept_channels(bones, targets@.take(i as int)),
        decreases targets@.len() - i,
    {
        assert(targets@.take(i as int + 1).drop_last() =~= targets@.take(i as int));
        match node_to_bone.get(&targets[i]) {
            Some(b) => {
                kept.push((i, *b));
            },
            None => {},
        }
        i = i + 1;
    }
    assert(targets@.take(targets@.len() as int) =~= targets@);
    kept
}

/// Links the bones of a skin: `nodes[j]` is the node of joint `j`, and
/// `joint_children[j]` the child nodes of that node. Each child node that
/// is a joint becomes a child of the bone of its parent node and gets that
/// bone as its parent (the last such link wins); the bones without a parent
/// are the roots.
pub fn link_skeleton(nodes: &Vec<usize>, joint_children: &Vec<Vec<usize>>) -> (links: SkeletonLinks)
    requires
        joint_children@.len() == nodes@.len(),
    ensures
        ({
            let n = nodes@.len();
            let applied = apply_links(
                n,
                skeleton_links(nodes@, kids_view(joint_children@), n),
            );
            &&& links.parents@ == applied.0
            &&& links.children@.len() == n
            &&& forall|b: int| 0 <= b < n ==> #[trigger] links.children@[b]@ == applied.1[b]
            &&& links.root_bones@ == roots_of(applied.0, n)
        }),
{
    let n = nodes.len();
    let ghost kids = kids_view(joint_children@);
    let node_to_bone = node_bone_map(nodes);
    let mut parents: Vec<Option<usize>> = Vec::new();
    let mut children: Vec<Vec<usize>> = Vec::new();
    let mut i: usize = 0;
    while i < n
        invariant
            0 <= i <= n,
            parents@ == Seq::new(i as nat, |k: int| None::<usize>),
            children@.len() == i,
            forall|k: int| 0 <= k < i ==> (#[trigger] children@[k])@ == Seq::<usize>::empty(),
        decreases n - i,
    {
        parents.push(None);
        children.push(Vec::new());
        i = i + 1;
    }
    proof {
        lemma_bone_map_bounded(nodes@);
    }
    let ghost bones = bone_map(nodes@);
    let mut j: usize = 0;
    while j < n
        invariant
            0 <= j <= n,
            n == nodes@.len(),
            joint_children@.len() == n,
            kids == kids_view(joint_children@),
            node_to_bone@ == bones,
            bones == bone_map(nodes@),
            forall|k: usize| #[trigger] bones.contains_key(k) ==> bones[k] < n,
            forall|t: int| 0 <= t < n ==> bones.contains_key(#[trigger] nodes@[t]),
            links_within(skeleton_links(nodes@, kids, j as nat), n as nat),
            parents@ == apply_links(n as nat, skeleton_links(nodes@, kids, j as nat)).0,
            children@.len() == n,
            forall|b: int|
                0 <= b < n ==> #[trigger] children@[b]@ == apply_links(
                    n as nat,
                    skeleton_links(nodes@, kids, j as nat),
                ).1[b],
        decreases n - j,
    {
        let bone_index = match node_to_bone.get(&nodes[j]) {
            Some(b) => *b,
            None => 0,
        };
        let ghost done = skeleton_links(nodes@, kids, j as nat);
        let kids_j = &joint_children[j];
        let mut k: usize = 0;
        while k < kids_j.len()
            invariant
                0 <= k <= kids_j@.len(),
                0 <= j < n,
                n == nodes@.len(),
                kids_j@ == kids[j as int],
                node_to_bone@ == bones,
                forall|key: usize| #[trigger] bones.contains_key(key) ==> bones[key] < n,
                bone_index == bones[nodes@[j as int]],
                bone_index < n,
                links_within(done, n as nat),
                parents@ == apply_links(
                    n as nat,
                    done + child_links(bones, bone_index, kids_j@.take(k as int)),
                ).0,
                children@.len() == n,
                forall|b: int|
                    0 <= b < n ==> #[trigger] children@[b]@ == apply_links(
                        n as nat,
                        done + child_links(bones, bone_index, kids_j@.take(k as int)),
                    ).1[b],
            decreases kids_j@.len() - k,
        {
            let ghost before_links = done + child_links(bones, bone_index, kids_j@.take(k as int));
            assert(kids_j@.take(k as int + 1).drop_last() =~= kids_j@.take(k as int));
            proof {
                lemma_child_links_bounded(bones, bone_index, kids_j@.take(k as int), n as nat);
                lemma_links_within_concat(done, child_links(bones, bone_index, kids_j@.take(k as int)), n as nat);
                lemma_apply_links_len(n as nat, before_links);
            }
            match node_to_bone.get(&kids_j[k]) {
                Some(child_index) => {
                    let c = *child_index;
                    let ghost after_links = before_links.push((bone_index, c));
                    assert(done + child_links(bones, bone_index, kids_j@.take(k as int + 1))
                        =~= after_links);
                    assert(after_links.drop_last() =~= before_links);
                    children[bone_index].push(c);
                    parents.set(c, Some(bone_index));
                },
                None => {
                    assert(done + child_links(bones, bone_index, kids_j@.take(k as int + 1))
                        =~= before_links);
                },
            }
            k = k + 1;
        }
        assert(kids_j@.take(kids_j@.len() as int) =~= kids_j@);
        proof {
            lemma_child_links_bounded(bones, bone_index, kids_j@, n as nat);
            lemma_links_within_concat(done, child_links(bones, bone_index, kids_j@), n as nat);
        }
        assert(skeleton_links(nodes@, kids, j as nat + 1) =~= done + child_links(
            bones,
            bone_index,
            kids_j@,
        ));
        j = j + 1;
    }
    let ghost applied = apply_links(n as nat, skeleton_links(nodes@, kids, n as nat));
    proof {
        lemma_apply_links_len(n as nat, skeleton_links(nodes@, kids, n as nat));
    }
    assert(kids_view(joint_children@) == kids);
    let mut root_bones: Vec<usize> = Vec::new();
    let mut r: usize = 0;
    while r < n
        invariant
            0 <= r <= n,
            parents@ == applied.0,
            applied.0.len() == n,
            root_bones@ == roots_of(applied.0, r as nat),
        decreases n - r,
    {
        if parents[r].is_none() {
            root_bones.push(r);
        }
        r = r + 1;
    }
    SkeletonLinks { parents, children, root_bones }
}

/// A bone that has a parent is among that parent's children.
pub proof fn lemma_parent_lists_child(n: nat, links: Seq<(usize, usize)>, c: int)
    requires
        links_within(links, n),
        0 <= c < n,
        apply_links(n, links).0[c] is Some,
    ensures
        apply_links(n, links).0[c]->0 < n,
        apply_links(n, links).1[apply_links(n, links).0[c]->0 as int].contains(c as usize),
    decreases links.len(),
{
    lemma_apply_links_len(n, links);
    if links.len() > 0 {
        let prev_links = links.drop_last();
        assert(links_within(prev_links, n)) by {
            assert forall|i: int| 0 <= i < prev_links.len() implies (#[trigger] prev_links[i]).0 < n
                && prev_links[i].1 < n by {
                assert(prev_links[i] == links[i]);
            }
        }
        lemma_apply_links_len(n, prev_links);
        let prev = apply_links(n, prev_links);
        let link = links.last();
        assert(link == links[links.len() - 1]);
        let cur = apply_links(n, links);
        if link.1 as int == c {
            let kids = prev.1[link.0 as int].push(link.1);
            assert(cur.1[link.0 as int] == kids);
            assert(kids[kids.len() - 1] == c as usize);
        } else {
            lemma_parent_lists_child(n, prev_links, c);
            let p = prev.0[c]->0 as int;
            assert(cur.0[c] == prev.0[c]);
            assert(prev.1[p].contains(c as usize));
            let i = choose|i: int| 0 <= i < prev.1[p].len() && prev.1[p][i] == c as usize;
            if p == link.0 as int {
                assert(cur.1[p] == prev.1[p].push(link.1));
                assert(cur.1[p][i] == c as usize);
            } else {
                assert(cur.1[p] == prev.1[p]);
            }
        }
    }
}


/// No two links name the same child.
pub open spec fn children_linked_once(links: Seq<(usize, usize)>) -> bool {
    forall|i: int, j: int|
        0 <= i < j < links.len() ==> (#[trigger] links[i]).1 != (#[trigger] links[j]).1
}

proof fn lemma_drop_last_within(links: Seq<(usize, usize)>, n: nat)
    requires
        links.len() > 0,
        links_within(links, n),
    ensures
        links_within(links.drop_last(), n),
        links.drop_last().len() + 1 == links.len(),
        children_linked_once(links) ==> children_linked_once(links.drop_last()),
{
    let prev = links.drop_last();
    assert forall|i: int| 0 <= i < prev.len() implies (#[trigger] prev[i]).0 < n && prev[i].1 < n by {
        assert(prev[i] == links[i]);
    }
    if children_linked_once(links) {
        assert forall|i: int, j: int| 0 <= i < j < prev.len() implies (#[trigger] prev[i]).1
            != (#[trigger] prev[j]).1 by {
            assert(prev[i] == links[i] && prev[j] == links[j]);
        }
    }
}

proof fn lemma_listed_child_has_link(n: nat, links: Seq<(usize, usize)>, p: int, c: usize)
    requires
        links_within(links, n),
        0 <= p < n,
        apply_links(n, links).1[p].contains(c),
    ensures
        exists|i: int| 0 <= i < links.len() && #[trigger] links[i] == (p as usize, c),
    decreases links.len(),
{
    lemma_apply_links_len(n, links);
    if links.len() == 0 {
        assert(apply_links(n, links).1[p] =~= Seq::<usize>::empty());
    } else {
        let prev_links = links.drop_last();
        lemma_drop_last_within(links, n);
        lemma_apply_links_len(n, prev_links);
        let prev = apply_links(n, prev_links);
        let link = links.last();
        assert(link == links[links.len() - 1]);
        let cur = apply_links(n, links);
        if p == link.0 as int {
            let kids = prev.1[p].push(link.1);
            assert(cur.1[p] == kids);
            let k = choose|k: int| 0 <= k < kids.len() && kids[k] == c;
            if k == kids.len() - 1 {
                assert(links[links.len() - 1] == (p as usize, c));
            } else {
                assert(prev.1[p][k] == c);
                lemma_listed_child_has_link(n, prev_links, p, c);
                let i = choose|i: int| 0 <= i < prev_links.len() && #[trigger] prev_links[i] == (p as usize, c);
                assert(links[i] == prev_links[i]);
            }
        } else {
            assert(cur.1[p] == prev.1[p]);
            lemma_listed_child_has_link(n, prev_links, p, c);
            let i = choose|i: int| 0 <= i < prev_links.len() && #[trigger] prev_links[i] == (p as usize, c);
            assert(links[i] == prev_links[i]);
        }
    }
}

/// A bone listed among the children of bone `p` has a parent; and where no
/// two links name the same child, that parent is `p`. (A bone linked under
/// two parents is listed under both, and the later link gives its parent.)
pub proof fn lemma_listed_child_has_parent(n: nat, links: Seq<(usize, usize)>, p: int, c: usize)
    requires
        links_within(links, n),
        0 <= p < n,
        apply_links(n, links).1[p].contains(c),
    ensures
        c < n,
        apply_links(n, links).0[c as int] is Some,
        children_linked_once(links) ==> apply_links(n, links).0[c as int] == Some(p as usize),
    decreases links.len(),
{
    lemma_apply_links_len(n, links);
    lemma_listed_child_has_link(n, links, p, c);
    if links.len() == 0 {
        assert(apply_links(n, links).1[p] =~= Seq::<usize>::empty());
    } else {
        let prev_links = links.drop_last();
        lemma_drop_last_within(links, n);
        lemma_apply_links_len(n, prev_links);
        let prev = apply_links(n, prev_links);
        let link = links.last();
        assert(link == links[links.len() - 1]);
        let cur = apply_links(n, links);
        let i = choose|i: int| 0 <= i < links.len() && #[trigger] links[i] == (p as usize, c);
        assert(c < n);
        if link.1 == c {
            assert(cur.0[c as int] == Some(link.0));
            if children_linked_once(links) {
                if i < links.len() - 1 {
                    assert(links[i].1 == links[links.len() - 1].1);
                }
                assert(link.0 == p as usize);
            }
        } else {
            assert(cur.0[c as int] == prev.0[c as int]);
            if p == link.0 as int {
                let kids = prev.1[p].push(link.1);
                assert(cur.1[p] == kids);
                let k = choose|k: int| 0 <= k < kids.len() && kids[k] == c;
                assert(k < kids.len() - 1);
                assert(prev.1[p][k] == c);
            } else {
                assert(cur.1[p] == prev.1[p]);
            }
            lemma_listed_child_has_parent(n, prev_links, p, c);
        }
    }
}


/// Every root and every listed child is one of the bones.
pub open spec fn hierarchy_in_range(roots: Seq<usize>, children: Seq<Seq<usize>>) -> bool {
    &&& forall|i: int| 0 <= i < roots.len() ==> #[trigger] roots[i] < children.len()
    &&& forall|b: int, k: int|
        0 <= b < children.len() && 0 <= k < children[b].len() ==> #[trigger] children[b][k]
            < children.len()
}

/// The bones in the order in which a stack walk visits them: take the bone
/// on top of `stack`, visit it, put its children on the stack in their
/// order, and go on until the stack is empty; `None` where that takes more
/// than `fuel` visits.
pub open spec fn stack_walk(children: Seq<Seq<usize>>, stack: Seq<usize>, fuel: nat) -> Option<
    Seq<usize>,
>
    decreases fuel,
{
    if stack.len() == 0 {
        Some(Seq::empty())
    } else if fuel == 0 {
        None
    } else {
        let i = stack.last();
        match stack_walk(children, stack.drop_last() + children[i as int], (fuel - 1) as nat) {
            Some(rest) => Some(seq![i] + rest),
            None => None,
        }
    }
}

/// Whether every root and every listed child of `links` is one of its
/// bones.
pub fn hierarchy_is_in_range(links: &SkeletonLinks) -> (ok: bool)
    ensures
        ok == hierarchy_in_range(links.root_bones@, kids_view(links.children@)),
{
    let n = links.children.len();
    let ghost kv = kids_view(links.children@);
    let mut r: usize = 0;
    while r < links.root_bones.len()
        invariant
            0 <= r <= links.root_bones@.len(),
            n == kv.len(),
            kv == kids_view(links.children@),
            forall|i: int| 0 <= i < r ==> #[trigger] links.root_bones@[i] < n,
        decreases links.root_bones@.len() - r,
    {
        if links.root_bones[r] >= n {
            return false;
        }
        r = r + 1;
    }
    let mut b: usize = 0;
    while b < n
        invariant
            0 <= b <= n,
            n == kv.len(),
            kv == kids_view(links.children@),
            forall|bb: int, k: int|
                0 <= bb < b && 0 <= k < kv[bb].len() ==> #[trigger] kv[bb][k] < n,
        decreases n - b,
    {
        let kids = &links.children[b];
        let mut k: usize = 0;
        while k < kids.len()
            invariant
                0 <= b < n,
                n == kv.len(),
                kv == kids_view(links.children@),
                kids@ == kv[b as int],
                0 <= k <= kids@.len(),
                forall|bb: int, kk: int|
                    0 <= bb < b && 0 <= kk < kv[bb].len() ==> #[trigger] kv[bb][kk] < n,
                forall|kk: int| 0 <= kk < k ==> #[trigger] kv[b as int][kk] < n,
            decreases kids@.len() - k,
        {
            if kids[k] >= n {
                assert(kv[b as int][k as int] >= n);
                return false;
            }
            k = k + 1;
        }
        b = b + 1;
    }
    true
}

/// The order in which the bones of `links` get their poses: the stack walk
/// from the roots (the last root first, and of the children of a bone the
/// last first), each bone after the one that put it on the stack. `None`
/// where the walk takes more visits than there are bones, which a forest
/// never does.
pub fn visit_order(links: &SkeletonLinks) -> (order: Option<Vec<usize>>)
    requires
        hierarchy_in_range(links.root_bones@, kids_view(links.children@)),
    ensures
        match order {
            Some(o) => stack_walk(
                kids_view(links.children@),
                links.root_bones@,
                links.children@.len(),
            ) == Some(o@),
            None => stack_walk(
                kids_view(links.children@),
                links.root_bones@,
                links.children@.len(),
            ) is None,
        },
{
    let n = links.children.len();
    let ghost kv = kids_view(links.children@);
    let ghost whole = stack_walk(kv, links.root_bones@, n as nat);
    let mut stack: Vec<usize> = Vec::new();
    let mut r: usize = 0;
    while r < links.root_bones.len()
        invariant
            0 <= r <= links.root_bones@.len(),
            stack@ == links.root_bones@.take(r as int),
        decreases links.root_bones@.len() - r,
    {
        stack.push(links.root_bones[r]);
        r = r + 1;
        assert(stack@ =~= links.root_bones@.take(r as int));
    }
    assert(stack@ =~= links.root_bones@);
    let mut out: Vec<usize> = Vec::new();
    let mut steps: usize = 0;
    while stack.len() > 0
        invariant
            n == kv.len(),
            kv == kids_view(links.children@),
            hierarchy_in_range(links.root_bones@, kv),
            forall|k: int| 0 <= k < stack@.len() ==> #[trigger] stack@[k] < n,
            steps <= n,
            whole == stack_walk(kv, links.root_bones@, n as nat),
            whole == (match stack_walk(kv, stack@, (n - steps) as nat) {
                Some(rest) => Some(out@ + rest),
                None => None,
            }),
        decreases n - steps,
    {
        if steps == n {
            return None;
        }
        let ghost old_stack = stack@;
        let ghost old_out = out@;
        let i = stack.pop().unwrap();
        assert(i == old_stack.last());
        assert(stack@ =~= old_stack.drop_last());
        out.push(i);
        let kids = &links.children[i];
        let mut k: usize = 0;
        while k < kids.len()
            invariant
                i < n,
                n == kv.len(),
                kv == kids_view(links.children@),
                hierarchy_in_range(links.root_bones@, kv),
                kids@ == kv[i as int],
                0 <= k <= kids@.len(),
                stack@ == old_stack.drop_last() + kids@.take(k as int),
                forall|j: int| 0 <= j < old_stack.len() ==> #[trigger] old_stack[j] < n,
            decreases kids@.len() - k,
        {
            assert(kv[i as int][k as int] < n);
            stack.push(kids[k]);
            k = k + 1;
            assert(stack@ =~= old_stack.drop_last() + kids@.take(k as int));
        }
        assert(kids@.take(kids@.len() as int) =~= kids@);
        assert forall|j: int| 0 <= j < stack@.len() implies #[trigger] stack@[j] < n by {
            if j < old_stack.len() - 1 {
                assert(stack@[j] == old_stack[j]);
            } else {
                assert(stack@[j] == kv[i as int][j - (old_stack.len() - 1)]);
            }
        }
        proof {
            let f = (n - steps) as nat;
            let next = stack_walk(kv, stack@, (f - 1) as nat);
            assert(stack@ == old_stack.drop_last() + kv[i as int]);
            match next {
                Some(rest) => {
                    assert(old_out + (seq![i] + rest) =~= out@ + rest);
                },
                None => {},
            }
        }
        steps = steps + 1;
    }
    assert(stack_walk(kv, stack@, (n - steps) as nat) == Some(Seq::<usize>::empty()));
    assert(out@ + Seq::<usize>::empty() =~= out@);
    Some(out)
}

/// Every bone of a finished stack walk was on the stack at the start or is
/// listed among the children of a bone visited before it.
pub proof fn lemma_walk_follows_children(
    children: Seq<Seq<usize>>,
    stack: Seq<usize>,
    fuel: nat,
    k: int,
)
    requires
        stack_walk(children, stack, fuel) is Some,
        0 <= k < stack_walk(children, stack, fuel)->0.len(),
    ensures
        ({
            let o = stack_walk(children, stack, fuel)->0;
            ||| stack.contains(o[k])
            ||| exists|j: int| 0 <= j < k && children[o[j] as int].contains(#[trigger] o[k])
        }),
    decreases fuel,
{
    let o = stack_walk(children, stack, fuel)->0;
    let i = stack.last();
    if k == 0 {
        assert(o[0] == i);
        assert(stack[stack.len() - 1] == i);
    } else {
        let next = stack.drop_last() + children[i as int];
        let rest = stack_walk(children, next, (fuel - 1) as nat)->0;
        assert(o == seq![i] + rest);
        assert(o[k] == rest[k - 1]);
        lemma_walk_follows_children(children, next, (fuel - 1) as nat, k - 1);
        if next.contains(rest[k - 1]) {
            let m = choose|m: int| 0 <= m < next.len() && next[m] == rest[k - 1];
            if m < stack.len() - 1 {
                assert(stack[m] == o[k]);
            } else {
                assert(children[i as int][m - (stack.len() - 1)] == o[k]);
                assert(children[o[0] as int].contains(o[k]));
            }
        } else {
            let j = choose|j: int| 0 <= j < k - 1 && children[rest[j] as int].contains(
                #[trigger] rest[k - 1],
            );
            assert(o[j + 1] == rest[j]);
            assert(children[o[j + 1] as int].contains(o[k]));
        }
    }
}


proof fn lemma_roots_have_no_parent(parents: Seq<Option<usize>>, m: nat, r: usize)
    requires
        roots_of(parents, m).contains(r),
        m <= usize::MAX + 1,
    ensures
        r < m,
        parents[r as int] is None,
    decreases m,
{
    if m > 0 {
        let prev = roots_of(parents, (m - 1) as nat);
        let i = choose|i: int| 0 <= i < roots_of(parents, m).len() && roots_of(parents, m)[i] == r;
        if parents[m - 1] is None && i == prev.len() {
            assert(roots_of(parents, m) == prev.push((m - 1) as usize));
            assert(r == (m - 1) as usize);
        } else {
            assert(prev[i] == r);
            lemma_roots_have_no_parent(parents, (m - 1) as nat, r);
        }
    }
}

proof fn lemma_walk_in_range(children: Seq<Seq<usize>>, stack: Seq<usize>, fuel: nat, k: int)
    requires
        forall|b: int, c: int|
            0 <= b < children.len() && 0 <= c < children[b].len() ==> #[trigger] children[b][c]
                < children.len(),
        forall|j: int| 0 <= j < stack.len() ==> #[trigger] stack[j] < children.len(),
        stack_walk(children, stack, fuel) is Some,
        0 <= k < stack_walk(children, stack, fuel)->0.len(),
    ensures
        stack_walk(children, stack, fuel)->0[k] < children.len(),
    decreases fuel,
{
    let o = stack_walk(children, stack, fuel)->0;
    let i = stack.last();
    assert(stack[stack.len() - 1] == i);
    if k > 0 {
        let next = stack.drop_last() + children[i as int];
        assert forall|j: int| 0 <= j < next.len() implies #[trigger] next[j] < children.len() by {
            if j < stack.len() - 1 {
                assert(next[j] == stack[j]);
            } else {
                assert(next[j] == children[i as int][j - (stack.len() - 1)]);
            }
        }
        lemma_walk_in_range(children, next, (fuel - 1) as nat, k - 1);
    }
}

/// In the stack walk of a linked skin from its roots, every bone that has a
/// parent is visited after that parent, where no two links name the same
/// child (as in a skin whose nodes form a tree).
pub proof fn lemma_walk_visits_parent_first(n: nat, links: Seq<(usize, usize)>, k: int)
    requires
        n <= usize::MAX,
        links_within(links, n),
        children_linked_once(links),
        stack_walk(apply_links(n, links).1, roots_of(apply_links(n, links).0, n), n) is Some,
        0 <= k < stack_walk(apply_links(n, links).1, roots_of(apply_links(n, links).0, n), n)->0.len(),
    ensures
        ({
            let parents = apply_links(n, links).0;
            let o = stack_walk(apply_links(n, links).1, roots_of(parents, n), n)->0;
            ||| parents[o[k] as int] is None
            ||| exists|j: int| 0 <= j < k && parents[o[k] as int] == Some(#[trigger] o[j])
        }),
{
    lemma_apply_links_len(n, links);
    let applied = apply_links(n, links);
    let roots = roots_of(applied.0, n);
    let o = stack_walk(applied.1, roots, n)->0;
    assert forall|b: int, c: int|
        0 <= b < applied.1.len() && 0 <= c < applied.1[b].len() implies #[trigger] applied.1[b][c]
        < applied.1.len() by {
        assert(applied.1[b].contains(applied.1[b][c]));
        lemma_listed_child_has_parent(n, links, b, applied.1[b][c]);
    }
    assert forall|j: int| 0 <= j < roots.len() implies #[trigger] roots[j] < applied.1.len() by {
        assert(roots.contains(roots[j]));
        lemma_roots_have_no_parent(applied.0, n, roots[j]);
    }
    lemma_walk_follows_children(applied.1, roots, n, k);
    if roots.contains(o[k]) {
        lemma_roots_have_no_parent(applied.0, n, o[k]);
    } else {
        let j = choose|j: int| 0 <= j < k && applied.1[o[j] as int].contains(#[trigger] o[k]);
        lemma_walk_in_range(applied.1, roots, n, j);
        lemma_listed_child_has_parent(n, links, o[j] as int, o[k]);
    }
}

} // verus!
