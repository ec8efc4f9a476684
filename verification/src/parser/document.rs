//! A parsed document: its source, its headings in document order, and the
//! tree that the headings form.

use vstd::prelude::*;

verus! {

/// One heading of a document.
#[derive(Debug, PartialEq)]
pub struct Heading {
    /// The level of the heading, 1 for the outermost.
    pub level: usize,
    /// The text of the heading, without its inline markers.
    pub text: String,
}

/// A heading with the headings below it.
#[derive(Debug, PartialEq)]
pub struct HeadingNode {
    pub heading: Heading,
    pub children: Vec<HeadingNode>,
}

/// A markdown document: its source, kept as it is, and its headings in document order.
#[derive(Debug, PartialEq)]
pub struct Document {
    pub content: String,
    pub headings: Vec<Heading>,
}

/// The value of a `Heading`.
pub struct HeadingView {
    pub level: usize,
    pub text: Seq<char>,
}

/// The value of a `HeadingNode`.
pub struct HeadingNodeView {
    pub heading: HeadingView,
    pub children: Seq<HeadingNodeView>,
}

impl View for Heading {
    type V = HeadingView;

    open spec fn view(&self) -> HeadingView {
        HeadingView { level: self.level, text: self.text@ }
    }
}

/// The values of a sequence of headings.
pub open spec fn headings_view(s: Seq<Heading>) -> Seq<HeadingView> {
    Seq::new(s.len(), |i: int| s[i]@)
}

/// A node without children.
pub open spec fn leaf(heading: HeadingView) -> HeadingNodeView {
    HeadingNodeView { heading: heading, children: Seq::empty() }
}

/// The value of a node, with the values of all nodes below it.
pub open spec fn node_view(node: HeadingNode) -> HeadingNodeView
    decreases node,
{
    HeadingNodeView { heading: node.heading@, children: nodes_view(node.children@) }
}

/// The values of a sequence of nodes.
pub open spec fn nodes_view(s: Seq<HeadingNode>) -> Seq<HeadingNodeView>
    decreases s,
{
    Seq::new(
        s.len(),
        |i: int|
            if 0 <= i < s.len() {
                node_view(s[i])
            } else {
                leaf(HeadingView { level: 0, text: Seq::empty() })
            },
    )
}

impl View for HeadingNode {
    type V = HeadingNodeView;

    open spec fn view(&self) -> HeadingNodeView {
        node_view(*self)
    }
}

/// The forest once `heading` has joined it: it becomes a child of the
/// nearest heading before it whose level is smaller, and a root where there
/// is none. That heading is found along the last nodes of the forest, from
/// the roots down.
pub open spec fn attach(forest: Seq<HeadingNodeView>, heading: HeadingView) -> Seq<
    HeadingNodeView,
>
    decreases forest,
{
    if forest.len() > 0 && forest.last().heading.level < heading.level {
        forest.drop_last().push(
            HeadingNodeView {
                heading: forest.last().heading,
                children: attach(forest.last().children, heading),
            },
        )
    } else {
        forest.push(leaf(heading))
    }
}

/// The forest that a sequence of headings forms: the headings join it one by one.
pub open spec fn forest_of(headings: Seq<HeadingView>) -> Seq<HeadingNodeView>
    decreases headings.len(),
{
    if headings.len() == 0 {
        Seq::empty()
    } else {
        attach(forest_of(headings.drop_last()), headings.last())
    }
}

/// The headings of a forest in pre-order: each node before its children, and
/// the nodes of one level from first to last.
pub open spec fn flatten(forest: Seq<HeadingNodeView>) -> Seq<HeadingView>
    decreases forest,
{
    if forest.len() == 0 {
        Seq::empty()
    } else {
        flatten(forest.drop_last()) + seq![forest.last().heading] + flatten(
            forest.last().children,
        )
    }
}

/// Every child in the forest has a level that is greater than its parent's.
pub open spec fn well_nested(forest: Seq<HeadingNodeView>) -> bool
    decreases forest,
{
    forall|i: int|
        0 <= i < forest.len() ==> {
            &&& above(#[trigger] forest[i])
            &&& well_nested(forest[i].children)
        }
}

/// Every child of the node has a level that is greater than the node's.
pub open spec fn above(node: HeadingNodeView) -> bool {
    forall|j: int|
        0 <= j < node.children.len() ==> (#[trigger] node.children[j]).heading.level
            > node.heading.level
}

/// The height of a forest: 0 for an empty one, and else one more than the
/// height of the forests below its roots.
pub open spec fn depth(forest: Seq<HeadingNodeView>) -> nat
    decreases forest,
{
    if forest.len() == 0 {
        0
    } else {
        let rest = depth(forest.drop_last());
        let last = 1 + depth(forest.last().children);
        if rest >= last {
            rest
        } else {
            last
        }
    }
}

/// A heading that joins a forest comes last in its pre-order.
pub proof fn lemma_attach_flatten(forest: Seq<HeadingNodeView>, heading: HeadingView)
    ensures
        flatten(attach(forest, heading)) == flatten(forest).push(heading),
    decreases forest,
{
    if forest.len() > 0 && forest.last().heading.level < heading.level {
        let last = forest.last();
        let grown = HeadingNodeView {
            heading: last.heading,
            children: attach(last.children, heading),
        };
        lemma_attach_flatten(last.children, heading);
        let after = forest.drop_last().push(grown);
        assert(after.drop_last() == forest.drop_last());
        assert(after.last() == grown);
        assert(flatten(after) =~= flatten(forest).push(heading));
    } else {
        let after = forest.push(leaf(heading));
        assert(after.drop_last() == forest);
        assert(flatten(leaf(heading).children) =~= Seq::<HeadingView>::empty());
        assert(flatten(after) =~= flatten(forest).push(heading));
    }
}

/// A heading that joins a well nested forest leaves it well nested, and
/// leaves the levels of its roots as they are.
pub proof fn lemma_attach_nested(forest: Seq<HeadingNodeView>, heading: HeadingView)
    requires
        well_nested(forest),
    ensures
        well_nested(attach(forest, heading)),
        forall|i: int|
            0 <= i < attach(forest, heading).len() ==> (#[trigger] attach(
                forest,
                heading,
            )[i]).heading.level == (if i < forest.len() {
                forest[i].heading.level
            } else {
                heading.level
            }),
        forest.len() <= attach(forest, heading).len() <= forest.len() + 1,
    decreases forest,
{
    let after = attach(forest, heading);
    if forest.len() > 0 && forest.last().heading.level < heading.level {
        let last = forest.last();
        lemma_attach_nested(last.children, heading);
        let grown = HeadingNodeView {
            heading: last.heading,
            children: attach(last.children, heading),
        };
        assert forall|i: int| 0 <= i < after.len() implies {
            &&& above(#[trigger] after[i])
            &&& well_nested(after[i].children)
        } by {
            if i < forest.len() - 1 {
                assert(after[i] == forest[i]);
            } else {
                assert(after[i] == grown);
                assert(above(last));
                assert forall|j: int| 0 <= j < grown.children.len() implies (
                #[trigger] grown.children[j]).heading.level > grown.heading.level by {
                    if j < last.children.len() {
                        assert(grown.children[j].heading.level == last.children[j].heading.level);
                    }
                }
            }
        }
    } else {
        assert forall|i: int| 0 <= i < after.len() implies {
            &&& above(#[trigger] after[i])
            &&& well_nested(after[i].children)
        } by {
            if i < forest.len() {
                assert(after[i] == forest[i]);
            } else {
                assert(after[i] == leaf(heading));
            }
        }
    }
}

/// In the forest that headings form, every child has a level that is
/// greater than its parent's, and the pre-order of the forest is the
/// sequence of the headings.
pub proof fn lemma_forest_laws(headings: Seq<HeadingView>)
    ensures
        well_nested(forest_of(headings)),
        flatten(forest_of(headings)) == headings,
    decreases headings.len(),
{
    if headings.len() > 0 {
        lemma_forest_laws(headings.drop_last());
        lemma_attach_nested(forest_of(headings.drop_last()), headings.last());
        lemma_attach_flatten(forest_of(headings.drop_last()), headings.last());
        assert(headings.drop_last().push(headings.last()) == headings);
    }
}

/// `parent` with `child` as its last child.
pub open spec fn with_child(parent: HeadingNodeView, child: HeadingNodeView) -> HeadingNodeView {
    HeadingNodeView { heading: parent.heading, children: parent.children.push(child) }
}

/// The node that a stack of open nodes closes to: each node becomes the last
/// child of the node below it.
pub open spec fn fold_stack(stack: Seq<HeadingNodeView>) -> HeadingNodeView
    recommends
        stack.len() > 0,
    decreases stack.len(),
{
    if stack.len() <= 1 {
        stack[0]
    } else {
        with_child(stack[0], fold_stack(stack.drop_first()))
    }
}

/// The forest that finished roots and a stack of open nodes close to.
pub open spec fn closed(roots: Seq<HeadingNodeView>, stack: Seq<HeadingNodeView>) -> Seq<
    HeadingNodeView,
> {
    if stack.len() == 0 {
        roots
    } else {
        roots.push(fold_stack(stack))
    }
}

/// The stack once its top node has become the last child of the node below it.
pub open spec fn top_closed(stack: Seq<HeadingNodeView>) -> Seq<HeadingNodeView>
    recommends
        stack.len() >= 2,
{
    stack.subrange(0, stack.len() - 2).push(with_child(stack[stack.len() - 2], stack.last()))
}

/// The levels of the open nodes grow from the bottom of the stack to its top.
pub open spec fn increasing(stack: Seq<HeadingNodeView>) -> bool {
    forall|i: int, j: int|
        0 <= i < j < stack.len() ==> (#[trigger] stack[i]).heading.level < (
        #[trigger] stack[j]).heading.level
}

/// A heading of the given level can join below the top of the stack: the
/// node that would come before it there has a level that is not smaller.
pub open spec fn ready_for(
    roots: Seq<HeadingNodeView>,
    stack: Seq<HeadingNodeView>,
    level: usize,
) -> bool {
    let siblings = if stack.len() == 0 {
        roots
    } else {
        stack.last().children
    };
    siblings.len() == 0 || siblings.last().heading.level >= level
}

/// Closing the top of the stack into the node below it does not change what
/// the stack closes to.
pub proof fn lemma_fold_top_closed(stack: Seq<HeadingNodeView>)
    requires
        stack.len() >= 2,
    ensures
        fold_stack(top_closed(stack)) == fold_stack(stack),
    decreases stack.len(),
{
    if stack.len() == 2 {
        assert(stack.drop_first().len() == 1);
        assert(fold_stack(stack.drop_first()) == stack[1]);
        assert(top_closed(stack).len() == 1);
    } else {
        let rest = stack.drop_first();
        lemma_fold_top_closed(rest);
        assert(top_closed(stack).drop_first() == top_closed(rest));
        assert(top_closed(stack)[0] == stack[0]);
    }
}

/// A heading that joins below the top of a stack, all of whose levels are
/// smaller than its own, joins the node that the stack closes to as `attach` says.
pub proof fn lemma_fold_attach(stack: Seq<HeadingNodeView>, heading: HeadingView)
    requires
        stack.len() > 0,
        forall|i: int| 0 <= i < stack.len() ==> (#[trigger] stack[i]).heading.level < heading.level,
        stack.last().children.len() == 0 || stack.last().children.last().heading.level
            >= heading.level,
    ensures
        fold_stack(stack).heading == stack[0].heading,
        fold_stack(stack.push(leaf(heading))).heading == stack[0].heading,
        attach(fold_stack(stack).children, heading) == fold_stack(
            stack.push(leaf(heading)),
        ).children,
    decreases stack.len(),
{
    let grown = stack.push(leaf(heading));
    assert(grown.drop_first() == stack.drop_first().push(leaf(heading)));
    assert(grown[0] == stack[0]);
    if stack.len() == 1 {
        assert(grown.drop_first().len() == 1);
        assert(fold_stack(grown.drop_first()) == leaf(heading));
    } else {
        let rest = stack.drop_first();
        lemma_fold_attach(rest, heading);
        let below = stack[0].children.push(fold_stack(rest));
        assert(fold_stack(stack).children == below);
        assert(below.drop_last() == stack[0].children);
        assert(below.last() == fold_stack(rest));
        assert(rest[0] == stack[1]);
    }
}

/// Opening a node for a heading on top of the stack joins the heading to the
/// forest that roots and stack close to, as `attach` says.
pub proof fn lemma_open_attach(
    roots: Seq<HeadingNodeView>,
    stack: Seq<HeadingNodeView>,
    heading: HeadingView,
)
    requires
        forall|i: int| 0 <= i < stack.len() ==> (#[trigger] stack[i]).heading.level < heading.level,
        ready_for(roots, stack, heading.level),
    ensures
        closed(roots, stack.push(leaf(heading))) == attach(closed(roots, stack), heading),
{
    let grown = stack.push(leaf(heading));
    if stack.len() == 0 {
        assert(grown.len() == 1);
        assert(fold_stack(grown) == leaf(heading));
    } else {
        lemma_fold_attach(stack, heading);
        let forest = roots.push(fold_stack(stack));
        assert(forest.drop_last() == roots);
        assert(forest.last() == fold_stack(stack));
    }
}

impl Clone for Heading {
    fn clone(&self) -> (res: Self)
        ensures
            res@ == self@,
    {
        Heading { level: self.level, text: self.text.clone() }
    }
}

/// A copy of a vector of nodes.
pub fn clone_nodes(v: &Vec<HeadingNode>) -> (res: Vec<HeadingNode>)
    ensures
        nodes_view(res@) == nodes_view(v@),
    decreases v,
{
    let mut res: Vec<HeadingNode> = Vec::new();
    let mut i: usize = 0;
    while i < v.len()
        invariant
            i <= v@.len(),
            res@.len() == i,
            forall|j: int| 0 <= j < i ==> node_view(res@[j]) == node_view(v@[j]),
        decreases v@.len() - i,
    {
        res.push(v[i].clone());
        i += 1;
    }
    assert(nodes_view(res@) =~= nodes_view(v@));
    res
}

impl Clone for HeadingNode {
    fn clone(&self) -> (res: Self)
        ensures
            res@ == self@,
        decreases self,
    {
        HeadingNode { heading: self.heading.clone(), children: clone_nodes(&self.children) }
    }
}

/// A copy of a vector of headings.
pub fn clone_headings(v: &Vec<Heading>) -> (res: Vec<Heading>)
    ensures
        headings_view(res@) == headings_view(v@),
{
    let mut res: Vec<Heading> = Vec::new();
    let mut i: usize = 0;
    while i < v.len()
        invariant
            i <= v@.len(),
            res@.len() == i,
            forall|j: int| 0 <= j < i ==> res@[j]@ == v@[j]@,
        decreases v@.len() - i,
    {
        res.push(v[i].clone());
        i += 1;
    }
    assert(headings_view(res@) =~= headings_view(v@));
    res
}

impl Clone for Document {
    fn clone(&self) -> (res: Self)
        ensures
            res.content@ == self.content@,
            headings_view(res.headings@) == headings_view(self.headings@),
    {
        Document { content: self.content.clone(), headings: clone_headings(&self.headings) }
    }
}

/// Closes the top of the stack: it becomes the last child of the node below
/// it, or the last root where there is none.
fn close_top(roots: &mut Vec<HeadingNode>, stack: &mut Vec<HeadingNode>)
    requires
        old(stack)@.len() > 0,
    ensures
        old(stack)@.len() == 1 ==> nodes_view(final(stack)@) == Seq::<HeadingNodeView>::empty()
            && nodes_view(final(roots)@) == nodes_view(old(roots)@).push(
            nodes_view(old(stack)@)[0],
        ),
        old(stack)@.len() >= 2 ==> nodes_view(final(stack)@) == top_closed(nodes_view(old(stack)@))
            && nodes_view(final(roots)@) == nodes_view(old(roots)@),
        final(stack)@.len() == old(stack)@.len() - 1,
{
    let finished = stack.pop().unwrap();
    match stack.pop() {
        Some(parent) => {
            let mut parent = parent;
            let ghost before = parent.children@;
            parent.children.push(finished);
            assert(nodes_view(parent.children@) =~= nodes_view(before).push(node_view(finished)));
            stack.push(parent);
            assert(nodes_view(stack@) =~= top_closed(nodes_view(old(stack)@)));
        },
        None => {
            roots.push(finished);
            assert(nodes_view(stack@) =~= Seq::<HeadingNodeView>::empty());
            assert(nodes_view(roots@) =~= nodes_view(old(roots)@).push(nodes_view(old(stack)@)[0]));
        },
    }
}

impl Document {
    /// A document with the given source and headings.
    pub fn new(content: String, headings: Vec<Heading>) -> (document: Self)
        ensures
            document.content == content,
            document.headings == headings,
    {
        Document { content, headings }
    }

    /// The tree of the headings: a single pass over the headings with a stack
    /// of open nodes. For each heading the open nodes whose level is not
    /// smaller are closed, and the heading opens a node on top of the rest.
    pub fn build_tree(&self) -> (tree: Vec<HeadingNode>)
        ensures
            nodes_view(tree@) == forest_of(headings_view(self.headings@)),
            well_nested(nodes_view(tree@)),
            flatten(nodes_view(tree@)) == headings_view(self.headings@),
    {
        let mut roots: Vec<HeadingNode> = Vec::new();
        let mut stack: Vec<HeadingNode> = Vec::new();
        let ghost headings = headings_view(self.headings@);
        assert(nodes_view(roots@) =~= Seq::<HeadingNodeView>::empty());
        assert(nodes_view(stack@) =~= Seq::<HeadingNodeView>::empty());
        assert(headings.subrange(0, 0) =~= Seq::<HeadingView>::empty());
        let mut i: usize = 0;
        while i < self.headings.len()
            invariant
                i <= self.headings@.len(),
                headings == headings_view(self.headings@),
                closed(nodes_view(roots@), nodes_view(stack@)) == forest_of(
                    headings.subrange(0, i as int),
                ),
                increasing(nodes_view(stack@)),
                stack@.len() == 0 ==> roots@.len() == 0,
                stack@.len() > 0 ==> nodes_view(stack@).last().children.len() == 0,
                nodes_view(stack@).len() == stack@.len(),
                nodes_view(roots@).len() == roots@.len(),
            decreases self.headings@.len() - i,
        {
            let heading = self.headings[i].clone();
            let ghost forest = closed(nodes_view(roots@), nodes_view(stack@));
            while stack.len() > 0 && stack[stack.len() - 1].heading.level >= heading.level
                invariant
                    closed(nodes_view(roots@), nodes_view(stack@)) == forest,
                    increasing(nodes_view(stack@)),
                    ready_for(nodes_view(roots@), nodes_view(stack@), heading.level),
                    nodes_view(stack@).len() == stack@.len(),
                    nodes_view(roots@).len() == roots@.len(),
                decreases stack@.len(),
            {
                let ghost open = nodes_view(stack@);
                proof {
                    if open.len() >= 2 {
                        lemma_fold_top_closed(open);
                    }
                    assert(open.last() == node_view(stack@[stack@.len() - 1]));
                }
                close_top(&mut roots, &mut stack);
            }
            proof {
                let open = nodes_view(stack@);
                if open.len() > 0 {
                    assert(open.last() == node_view(stack@[stack@.len() - 1]));
                }
                lemma_open_attach(nodes_view(roots@), open, heading@);
                assert(headings.subrange(0, i + 1).drop_last() == headings.subrange(0, i as int));
                assert(headings.subrange(0, i + 1).last() == heading@);
            }
            let ghost open = nodes_view(stack@);
            let node = HeadingNode { heading, children: Vec::new() };
            assert(nodes_view(node.children@) =~= Seq::<HeadingNodeView>::empty());
            stack.push(node);
            assert(nodes_view(stack@) =~= open.push(leaf(heading@)));
            i += 1;
        }
        assert(headings.subrange(0, i as int) == headings);
        let ghost forest = forest_of(headings);
        while stack.len() > 0
            invariant
                closed(nodes_view(roots@), nodes_view(stack@)) == forest,
                nodes_view(stack@).len() == stack@.len(),
            decreases stack@.len(),
        {
            proof {
                if stack@.len() >= 2 {
                    lemma_fold_top_closed(nodes_view(stack@));
                }
            }
            close_top(&mut roots, &mut stack);
        }
        proof {
            lemma_forest_laws(headings);
        }
        roots
    }
}

} // verus!
