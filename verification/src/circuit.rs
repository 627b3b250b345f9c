use vstd::prelude::*;
use crate::text::{
    chars_of, lines_of, mark_blanks, pieces_of, same_chars, same_text, split_lines, split_marked,
    string_of_chars, words_of,
};

verus! {

/// What a node of a circuit does.
#[derive(Debug, Clone, Copy, PartialEq, Eq, Structural)]
pub enum NodeFunction {
    /// A source of power that is on or off.
    Generator(bool),
    /// A switch that is on or off.
    Switch(bool),
    Light,
}

#[derive(Debug, Clone, Copy, PartialEq, Eq, Structural)]
pub enum MyError {
    OperationNotSupported,
    NodeNotFound,
}

/// Whether a node lets power through: a light always does.
pub open spec fn lets_through(f: NodeFunction) -> bool {
    match f {
        NodeFunction::Light => true,
        NodeFunction::Switch(b) => b,
        NodeFunction::Generator(b) => b,
    }
}

/// A node after its switch or generator was thrown; a light stays a light.
pub open spec fn thrown(f: NodeFunction) -> NodeFunction {
    match f {
        NodeFunction::Light => NodeFunction::Light,
        NodeFunction::Switch(b) => NodeFunction::Switch(!b),
        NodeFunction::Generator(b) => NodeFunction::Generator(!b),
    }
}

/// A node of a circuit. Its parent and its two outputs are places in the
/// tree that holds it.
pub struct Node {
    name: String,
    function: NodeFunction,
    parent: Option<usize>,
    out0: Option<usize>,
    out1: Option<usize>,
}

/// A node as a mathematical value.
pub struct NodeView {
    pub name: Seq<char>,
    pub function: NodeFunction,
    /// The place of the node that feeds this one.
    pub parent: Option<usize>,
    /// The places of the nodes that this one feeds.
    pub outs: (Option<usize>, Option<usize>),
}

impl View for Node {
    type V = NodeView;

    closed spec fn view(&self) -> NodeView {
        NodeView {
            name: self.name@,
            function: self.function,
            parent: self.parent,
            outs: (self.out0, self.out1),
        }
    }
}

/// A node that is part of no tree.
pub open spec fn loose(name: Seq<char>, function: NodeFunction) -> NodeView {
    NodeView { name, function, parent: None, outs: (None, None) }
}

impl Node {
    /// A node that is part of no tree yet.
    pub fn new(name: &str, function: NodeFunction) -> (n: Self)
        ensures
            n@ == loose(name@, function),
    {
        Node {
            name: string_of_chars(&chars_of(name)),
            function,
            parent: None,
            out0: None,
            out1: None,
        }
    }

    /// Throws the switch or the generator; a light has nothing to throw.
    pub fn toggle(&mut self) -> (r: Result<(), MyError>)
        ensures
            final(self)@ == (NodeView { function: thrown(old(self)@.function), ..old(self)@ }),
            old(self)@.function is Light ==> r == Err::<(), MyError>(MyError::OperationNotSupported),
            !(old(self)@.function is Light) ==> r == Ok::<(), MyError>(()),
    {
        match self.function {
            NodeFunction::Light => Err(MyError::OperationNotSupported),
            NodeFunction::Switch(b) => {
                self.function = NodeFunction::Switch(!b);
                Ok(())
            },
            NodeFunction::Generator(b) => {
                self.function = NodeFunction::Generator(!b);
                Ok(())
            },
        }
    }

    pub fn is_toggle_on(&self) -> (b: bool)
        ensures
            b == lets_through(self@.function),
    {
        match self.function {
            NodeFunction::Light => true,
            NodeFunction::Switch(b) => b,
            NodeFunction::Generator(b) => b,
        }
    }
}

/// The place of the node that was added last under a name.
pub open spec fn lookup(nodes: Seq<NodeView>, name: Seq<char>) -> Option<int>
    decreases nodes.len(),
{
    if nodes.len() == 0 {
        None
    } else if nodes.last().name == name {
        Some(nodes.len() - 1)
    } else {
        lookup(nodes.drop_last(), name)
    }
}

/// Whether every node from which power comes to node `i` lets it through.
pub open spec fn powered(nodes: Seq<NodeView>, i: int) -> bool
    decreases i,
{
    match nodes[i].parent {
        Some(p) => if 0 <= p < i {
            lets_through(nodes[p as int].function) && powered(nodes, p as int)
        } else {
            true
        },
        None => true,
    }
}

/// Whether power comes to node `i` through node `a`.
pub open spec fn feeds(nodes: Seq<NodeView>, a: int, i: int) -> bool
    decreases i,
{
    match nodes[i].parent {
        Some(p) => 0 <= p < i && (p == a || feeds(nodes, a, p as int)),
        None => false,
    }
}

/// A node after it got the node at place `k` as an output: as its first
/// output if it had none, else as its second.
pub open spec fn feeding(n: NodeView, k: usize) -> NodeView {
    NodeView {
        outs: if n.outs.0 is None {
            (Some(k), n.outs.1)
        } else {
            (n.outs.0, Some(k))
        },
        ..n
    }
}

/// A tree as a mathematical value: its nodes in the order in which they
/// were added, and the place of its root.
pub struct TreeView {
    pub nodes: Seq<NodeView>,
    pub root: Option<usize>,
}

/// The tree after a node is added under the node named `parent_name`, as
/// that node's first output if it has none yet and else as its second.
/// Under the name `-`, if no node bears it, the node becomes the root.
/// Under any other name that no node bears, nothing can be added.
pub open spec fn added(t: TreeView, parent_name: Seq<char>, node: NodeView) -> Option<TreeView> {
    let place = t.nodes.len() as usize;
    match lookup(t.nodes, parent_name) {
        Some(p) => Some(
            TreeView {
                nodes: t.nodes.update(p, feeding(t.nodes[p], place)).push(
                    NodeView { parent: Some(p as usize), ..node },
                ),
                root: t.root,
            },
        ),
        None => if parent_name == seq!['-'] {
            Some(TreeView { nodes: t.nodes.push(node), root: Some(place) })
        } else {
            None
        },
    }
}

/// The nodes after a light is lit: every switch and generator that was off
/// on the way of the power to the light at place `i` is thrown.
pub open spec fn lit(nodes: Seq<NodeView>, i: int) -> Seq<NodeView> {
    Seq::new(
        nodes.len(),
        |k: int|
            if feeds(nodes, k, i) && !lets_through(nodes[k].function) {
                NodeView { function: thrown(nodes[k].function), ..nodes[k] }
            } else {
                nodes[k]
            },
    )
}

/// A tree of generators, switches and lights. Nodes are found by name; of
/// two nodes with one name the one added later is found.
pub struct CircuitTree {
    nodes: Vec<Node>,
    root: Option<usize>,
}

impl View for CircuitTree {
    type V = TreeView;

    closed spec fn view(&self) -> TreeView {
        TreeView { nodes: self.nodes@.map_values(|n: Node| n@), root: self.root }
    }
}

impl CircuitTree {
    pub fn new() -> (t: Self)
        ensures
            t@ == (TreeView { nodes: Seq::empty(), root: None }),
    {
        let t = CircuitTree { nodes: Vec::new(), root: None };
        assert(t@.nodes =~= Seq::<NodeView>::empty());
        t
    }

    fn find(&self, name: &str) -> (r: Option<usize>)
        ensures
            match r {
                Some(i) => lookup(self@.nodes, name@) == Some(i as int) && i < self@.nodes.len(),
                None => lookup(self@.nodes, name@) is None,
            },
    {
        let ghost all = self@.nodes;
        let mut i: usize = self.nodes.len();
        assert(all.take(i as int) =~= all);
        while i > 0
            invariant
                i <= self.nodes.len(),
                all == self@.nodes,
                lookup(all, name@) == lookup(all.take(i as int), name@),
            decreases i,
        {
            let ghost upto = all.take(i as int);
            assert(upto.drop_last() =~= all.take(i - 1));
            assert(upto.last() == self.nodes@[i - 1]@);
            if same_text(self.nodes[i - 1].name.as_str(), name) {
                return Some(i - 1);
            }
            i -= 1;
        }
        None
    }

    /// The node with this name.
    pub fn get(&self, name: &str) -> (r: Option<&Node>)
        ensures
            match lookup(self@.nodes, name@) {
                Some(i) => r is Some && r->Some_0@ == self@.nodes[i],
                None => r is None,
            },
    {
        match self.find(name) {
            Some(i) => Some(&self.nodes[i]),
            None => None,
        }
    }

    /// Adds a node; see `added`.
    pub fn add(&mut self, parent_name: &str, node: Node) -> (r: Result<(), MyError>)
        requires
            old(self)@.nodes.len() < usize::MAX,
        ensures
            match added(old(self)@, parent_name@, node@) {
                Some(t) => r == Ok::<(), MyError>(()) && final(self)@ == t,
                None => r == Err::<(), MyError>(MyError::NodeNotFound) && final(self)@ == old(self)@,
            },
    {
        let place: usize = self.nodes.len();
        let ghost before = self@.nodes;
        proof {
            reveal_strlit("-");
            assert("-"@ =~= seq!['-']);
        }
        match self.find(parent_name) {
            Some(p) => {
                let ghost given = node@;
                let mut node = node;
                node.parent = Some(p);
                if self.nodes[p].out0.is_none() {
                    self.nodes[p].out0 = Some(place);
                } else {
                    self.nodes[p].out1 = Some(place);
                }
                self.nodes.push(node);
                assert(self@.nodes =~= added(old(self)@, parent_name@, given)->Some_0.nodes);
                Ok(())
            },
            None => {
                if same_text(parent_name, "-") {
                    self.nodes.push(node);
                    self.root = Some(place);
                    assert(self@.nodes =~= before.push(node@));
                    Ok(())
                } else {
                    Err(MyError::NodeNotFound)
                }
            },
        }
    }

    /// Whether a light is lit: whether every node from which power comes
    /// to it lets power through.
    pub fn light_status(&self, name: &str) -> (r: Result<bool, MyError>)
        ensures
            match lookup(self@.nodes, name@) {
                None => r == Err::<bool, MyError>(MyError::NodeNotFound),
                Some(i) => if self@.nodes[i].function is Light {
                    r == Ok::<bool, MyError>(powered(self@.nodes, i))
                } else {
                    r == Err::<bool, MyError>(MyError::OperationNotSupported)
                },
            },
    {
        let ghost all = self@.nodes;
        match self.find(name) {
            None => Err(MyError::NodeNotFound),
            Some(i) => {
                assert(all[i as int] == self.nodes@[i as int]@);
                match self.nodes[i].function {
                    NodeFunction::Light => {
                        let mut cur: usize = i;
                        loop
                            invariant
                                cur < self.nodes@.len(),
                                i < self.nodes@.len(),
                                all == self@.nodes,
                                lookup(all, name@) == Some(i as int),
                                all[i as int].function is Light,
                                powered(all, i as int) == powered(all, cur as int),
                            decreases cur,
                        {
                            assert(all[cur as int] == self.nodes@[cur as int]@);
                            match self.nodes[cur].parent {
                                Some(p) => {
                                    if p < cur {
                                        assert(all[p as int] == self.nodes@[p as int]@);
                                        if !self.nodes[p].is_toggle_on() {
                                            return Ok(false);
                                        }
                                        cur = p;
                                    } else {
                                        return Ok(true);
                                    }
                                },
                                None => {
                                    return Ok(true);
                                },
                            }
                        }
                    },
                    _ => Err(MyError::OperationNotSupported),
                }
            },
        }
    }

    /// Lights a light: throws every switch and generator that is off on
    /// the way of the power to it.
    pub fn turn_light_on(&mut self, name: &str) -> (r: Result<(), MyError>)
        ensures
            final(self)@.root == old(self)@.root,
            match lookup(old(self)@.nodes, name@) {
                None => r == Err::<(), MyError>(MyError::NodeNotFound) && final(self)@ == old(self)@,
                Some(i) => if old(self)@.nodes[i].function is Light {
                    r == Ok::<(), MyError>(()) && final(self)@.nodes == lit(old(self)@.nodes, i)
                } else {
                    r == Err::<(), MyError>(MyError::OperationNotSupported) && final(self)@ == old(
                        self,
                    )@
                },
            },
    {
        let ghost start = self@.nodes;
        match self.find(name) {
            None => Err(MyError::NodeNotFound),
            Some(i) => {
                assert(start[i as int] == self.nodes@[i as int]@);
                match self.nodes[i].function {
                    NodeFunction::Light => {
                        let mut cur: usize = i;
                        proof {
                            assert forall|k: int| feeds(start, k, i as int) implies 0 <= k < i by {
                                lemma_feeds_below(start, k, i as int);
                            }
                        }
                        loop
                            invariant
                                cur <= i < start.len(),
                                lookup(start, name@) == Some(i as int),
                                start[i as int].function is Light,
                                self.root == old(self).root,
                                start == old(self)@.nodes,
                                self@.nodes.len() == start.len(),
                                cur == i || feeds(start, cur as int, i as int),
                                forall|k: int|
                                    feeds(start, k, i as int) ==> k >= cur || feeds(start, k, cur as int),
                                forall|k: int| feeds(start, k, cur as int) ==> feeds(start, k, i as int),
                                forall|k: int| feeds(start, k, cur as int) ==> 0 <= k < cur,
                                forall|k: int|
                                    0 <= k < start.len() ==> #[trigger] self@.nodes[k] == if feeds(
                                        start,
                                        k,
                                        i as int,
                                    ) && k >= cur && !lets_through(start[k].function) {
                                        NodeView { function: thrown(start[k].function), ..start[k] }
                                    } else {
                                        start[k]
                                    },
                            ensures
                                self.root == old(self).root,
                                self@.nodes == lit(start, i as int),
                            decreases cur,
                        {
                            let ghost now = self@.nodes;
                            assert(now[cur as int] == self.nodes@[cur as int]@);
                            assert(now[cur as int].parent == start[cur as int].parent);
                            let parent = self.nodes[cur].parent;
                            let next: Option<usize> = match parent {
                                Some(p) => if p < cur {
                                    Some(p)
                                } else {
                                    None
                                },
                                None => None,
                            };
                            match next {
                                Some(p) => {
                                    assert(feeds(start, p as int, cur as int));
                                    proof {
                                        lemma_feeds_chain(start, p as int, cur as int, i as int);
                                        assert forall|k: int| feeds(start, k, p as int) implies 0 <= k
                                            < p && feeds(start, k, i as int) by {
                                            lemma_feeds_below(start, k, p as int);
                                            lemma_feeds_chain(start, k, p as int, i as int);
                                        }
                                    }
                                    assert(now[p as int] == self.nodes@[p as int]@);
                                    assert(now[p as int] == start[p as int]);
                                    if !self.nodes[p].is_toggle_on() {
                                        let _ = self.nodes[p].toggle();
                                    }
                                    assert forall|k: int| 0 <= k < start.len() implies #[trigger] self@.nodes[k]
                                        == if feeds(start, k, i as int) && k >= p && !lets_through(
                                        start[k].function,
                                    ) {
                                        NodeView { function: thrown(start[k].function), ..start[k] }
                                    } else {
                                        start[k]
                                    } by {
                                        if k != p {
                                            assert(self@.nodes[k] == now[k]);
                                            if feeds(start, k, i as int) && k < cur {
                                                assert(feeds(start, k, cur as int));
                                            }
                                        }
                                    }
                                    assert forall|k: int| feeds(start, k, i as int) implies k >= p || feeds(
                                        start,
                                        k,
                                        p as int,
                                    ) by {
                                        if k < cur {
                                            assert(feeds(start, k, cur as int));
                                        }
                                    }
                                    cur = p;
                                },
                                None => {
                                    assert(forall|k: int| !feeds(start, k, cur as int));
                                    assert(self@.nodes =~= lit(start, i as int));
                                    break;
                                },
                            }
                        }
                        Ok(())
                    },
                    _ => Err(MyError::OperationNotSupported),
                }
            },
        }
    }
}

/// A light that was lit is lit: after every switch and generator that was
/// off on the way of the power to it has been thrown, every node on that
/// way lets power through.
pub proof fn law_lit_light_is_lit(nodes: Seq<NodeView>, i: int, j: int)
    requires
        0 <= i < nodes.len(),
        j == i || feeds(nodes, j, i),
        0 <= j <= i,
    ensures
        powered(lit(nodes, i), j),
    decreases j,
{
    let after = lit(nodes, i);
    assert(after[j].parent == nodes[j].parent);
    match nodes[j].parent {
        Some(p) => {
            if 0 <= p < j {
                assert(feeds(nodes, p as int, j));
                lemma_feeds_chain(nodes, p as int, j, i);
                law_lit_light_is_lit(nodes, i, p as int);
                assert(lets_through(after[p as int].function));
            }
        },
        None => {},
    }
}

/// Power comes to a node only through nodes that stand before it.
pub proof fn lemma_feeds_below(nodes: Seq<NodeView>, a: int, c: int)
    requires
        feeds(nodes, a, c),
    ensures
        0 <= a < c,
    decreases c,
{
    match nodes[c].parent {
        Some(p) => {
            if p != a {
                lemma_feeds_below(nodes, a, p as int);
            }
        },
        None => {},
    }
}

/// Power that comes to `b` through `a` comes through `a` to every node to
/// which it comes through `b`.
pub proof fn lemma_feeds_chain(nodes: Seq<NodeView>, a: int, b: int, c: int)
    requires
        feeds(nodes, a, b),
        b == c || feeds(nodes, b, c),
    ensures
        feeds(nodes, a, c),
    decreases c,
{
    if b != c {
        match nodes[c].parent {
            Some(p) => {
                if p != b {
                    lemma_feeds_chain(nodes, a, b, p as int);
                }
            },
            None => {},
        }
    }
}

/// What a line of words asks for: the name of a parent and the node to add
/// under it. `G`, a name, a parent and a state make a generator, `S` and
/// the same a switch, each on if the state is `on`; `L`, a name and a
/// parent make a light.
pub open spec fn line_node(words: Seq<Seq<char>>) -> Option<(Seq<char>, NodeView)> {
    if words.len() == 0 {
        None
    } else if words[0] == "G"@ || words[0] == "S"@ {
        if words.len() >= 4 {
            let on = words[3] == "on"@;
            Some(
                (
                    words[2],
                    loose(
                        words[1],
                        if words[0] == "G"@ {
                            NodeFunction::Generator(on)
                        } else {
                            NodeFunction::Switch(on)
                        },
                    ),
                ),
            )
        } else {
            None
        }
    } else if words[0] == "L"@ {
        if words.len() >= 3 {
            Some((words[2], loose(words[1], NodeFunction::Light)))
        } else {
            None
        }
    } else {
        None
    }
}

/// The tree that lines of words build, a node for each line in their
/// order; none if a line asks for no node or for one under a parent that
/// is not there.
pub open spec fn built(lines: Seq<Seq<Seq<char>>>) -> Option<TreeView>
    decreases lines.len(),
{
    if lines.len() == 0 {
        Some(TreeView { nodes: Seq::empty(), root: None })
    } else {
        match (built(lines.drop_last()), line_node(lines.last())) {
            (Some(t), Some((parent, node))) => added(t, parent, node),
            _ => None,
        }
    }
}

/// The lines of words that a vector holds.
pub open spec fn word_lines(lines: Seq<Vec<Vec<char>>>) -> Seq<Seq<Seq<char>>> {
    lines.map_values(|l: Vec<Vec<char>>| pieces_of(l@))
}

/// The words of each line of a text.
pub open spec fn text_words(s: Seq<char>) -> Seq<Seq<Seq<char>>> {
    lines_of(s).map_values(|l: Seq<char>| words_of(l))
}

proof fn lemma_built_size(lines: Seq<Seq<Seq<char>>>)
    requires
        built(lines) is Some,
    ensures
        built(lines)->Some_0.nodes.len() == lines.len(),
    decreases lines.len(),
{
    if lines.len() > 0 {
        lemma_built_size(lines.drop_last());
        let t = built(lines.drop_last())->Some_0;
        lemma_lookup_range(t.nodes, line_node(lines.last())->Some_0.0);
    }
}

/// A node that is found by its name stands at a place of the tree.
pub proof fn lemma_lookup_range(nodes: Seq<NodeView>, name: Seq<char>)
    ensures
        match lookup(nodes, name) {
            Some(i) => 0 <= i < nodes.len() && nodes[i].name == name,
            None => true,
        },
    decreases nodes.len(),
{
    if nodes.len() > 0 && nodes.last().name != name {
        lemma_lookup_range(nodes.drop_last(), name);
    }
}

proof fn lemma_built_prefix(lines: Seq<Seq<Seq<char>>>, k: int)
    requires
        0 <= k <= lines.len(),
        built(lines.take(k)) is None,
    ensures
        built(lines) is None,
    decreases lines.len() - k,
{
    if k == lines.len() {
        assert(lines.take(k) =~= lines);
    } else {
        assert(lines.take(k + 1).drop_last() =~= lines.take(k));
        lemma_built_prefix(lines, k + 1);
    }
}

impl CircuitTree {
    fn node_of(words: &Vec<Vec<char>>) -> (r: Option<(String, Node)>)
        ensures
            match line_node(pieces_of(words@)) {
                Some((parent, node)) => r is Some && r->Some_0.0@ == parent && r->Some_0.1@ == node,
                None => r is None,
            },
    {
        if words.len() == 0 {
            return None;
        }
        assert(pieces_of(words@)[0] == words@[0]@);
        let generator = same_chars(&words[0], &chars_of("G"));
        let switch = same_chars(&words[0], &chars_of("S"));
        if generator || switch {
            if words.len() < 4 {
                return None;
            }
            assert(pieces_of(words@)[1] == words@[1]@);
            assert(pieces_of(words@)[2] == words@[2]@);
            assert(pieces_of(words@)[3] == words@[3]@);
            let on = same_chars(&words[3], &chars_of("on"));
            let function = if generator {
                NodeFunction::Generator(on)
            } else {
                NodeFunction::Switch(on)
            };
            let name = string_of_chars(&words[1]);
            Some((string_of_chars(&words[2]), Node::new(name.as_str(), function)))
        } else if same_chars(&words[0], &chars_of("L")) {
            if words.len() < 3 {
                return None;
            }
            assert(pieces_of(words@)[1] == words@[1]@);
            assert(pieces_of(words@)[2] == words@[2]@);
            let name = string_of_chars(&words[1]);
            Some((string_of_chars(&words[2]), Node::new(name.as_str(), NodeFunction::Light)))
        } else {
            None
        }
    }

    /// Builds a tree from lines of words, a node for each line.
    pub fn from_words(lines: &Vec<Vec<Vec<char>>>) -> (r: Option<CircuitTree>)
        ensures
            match built(word_lines(lines@)) {
                Some(t) => r is Some && r->Some_0@ == t,
                None => r is None,
            },
    {
        let ghost all = word_lines(lines@);
        let mut ct = CircuitTree::new();
        let mut i: usize = 0;
        assert(all.take(0) =~= Seq::<Seq<Seq<char>>>::empty());
        while i < lines.len()
            invariant
                i <= lines.len(),
                all == word_lines(lines@),
                built(all.take(i as int)) == Some(ct@),
            decreases lines.len() - i,
        {
            let ghost upto = all.take(i + 1);
            assert(upto.drop_last() =~= all.take(i as int));
            assert(upto.last() == pieces_of(lines@[i as int]@));
            proof {
                lemma_built_size(all.take(i as int));
            }
            match CircuitTree::node_of(&lines[i]) {
                Some((parent, node)) => {
                    match ct.add(parent.as_str(), node) {
                        Ok(()) => {},
                        Err(_) => {
                            proof {
                                lemma_built_prefix(all, i + 1);
                            }
                            return None;
                        },
                    }
                },
                None => {
                    proof {
                        lemma_built_prefix(all, i + 1);
                    }
                    return None;
                },
            }
            i += 1;
        }
        assert(all.take(i as int) =~= all);
        Some(ct)
    }

    /// Builds a tree from a text with a node on each line; `None` where a
    /// line asks for no node or for one under a parent that is not there.
    pub fn from_text(s: &str) -> (r: Option<CircuitTree>)
        ensures
            match built(text_words(s@)) {
                Some(t) => r is Some && r->Some_0@ == t,
                None => r is None,
            },
    {
        let chars = chars_of(s);
        let lines = split_lines(&chars);
        let mut words: Vec<Vec<Vec<char>>> = Vec::new();
        let mut i: usize = 0;
        let ghost all = lines_of(s@);
        while i < lines.len()
            invariant
                i <= lines.len(),
                all == pieces_of(lines@),
                word_lines(words@) == all.take(i as int).map_values(|l: Seq<char>| words_of(l)),
            decreases lines.len() - i,
        {
            let ghost done = word_lines(words@);
            let line = &lines[i];
            assert(all[i as int] == line@);
            let blank = mark_blanks(line);
            let ws = split_marked(line, &blank);
            words.push(ws);
            i += 1;
            assert(word_lines(words@) =~= done.push(words_of(line@)));
            assert(word_lines(words@) =~= all.take(i as int).map_values(|l: Seq<char>| words_of(l)));
        }
        assert(all.take(i as int) =~= all);
        CircuitTree::from_words(&words)
    }
}

} // verus!
