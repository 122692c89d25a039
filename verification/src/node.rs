use crate::rule::Rule;
use vstd::prelude::*;
use vstd::string::*;

verus! {

/// The mathematical value of a parse tree: what a [`Node`] stands for.
pub struct NodeModel {
    /// The rule that the node matched.
    pub rule: Rule,
    /// The source text that the node spans.
    pub text: Seq<char>,
    /// The nodes inside this one, in source order.
    pub children: Seq<NodeModel>,
}

/// A node of the parse tree that the grammar makes of a query.
#[derive(Debug, PartialEq, Eq)]
pub struct Node {
    /// The rule that the node matched.
    pub rule: Rule,
    /// The source text that the node spans.
    pub text: String,
    /// The nodes inside this one, in source order.
    pub children: Vec<Node>,
}

/// The model of the node at `at` among `nodes`.
pub open spec fn model_at(nodes: Seq<Node>, at: int) -> NodeModel
    decreases nodes, 0nat,
{
    if 0 <= at < nodes.len() {
        nodes[at].view()
    } else {
        arbitrary()
    }
}

impl View for Node {
    type V = NodeModel;

    open spec fn view(&self) -> NodeModel
        decreases self, 1nat,
    {
        NodeModel {
            rule: self.rule,
            text: self.text@,
            children: Seq::new(self.children@.len(), |i: int| model_at(self.children@, i)),
        }
    }
}

impl DeepView for Node {
    type V = NodeModel;

    open spec fn deep_view(&self) -> NodeModel {
        self.view()
    }
}

impl Clone for Node {
    #[verifier::loop_isolation(false)]
    fn clone(&self) -> (copy: Node)
        ensures
            copy@ == self@,
        decreases self,
    {
        let mut children: Vec<Node> = Vec::new();
        let mut i: usize = 0;
        while i < self.children.len()
            invariant
                i <= self.children.len(),
                children.deep_view() =~= self.children.deep_view().take(i as int),
            decreases self.children.len() - i,
        {
            children.push(self.children[i].clone());
            i += 1;
        }
        let copy = Node { rule: self.rule, text: self.text.clone(), children };
        proof {
            assert(children.deep_view() =~= self.children.deep_view());
            copy.lemma_view();
            self.lemma_view();
        }
        copy
    }
}

impl Node {
    /// The children of a node's model are the models of its children.
    pub proof fn lemma_view(self)
        ensures
            self@.rule == self.rule,
            self@.text == self.text@,
            self@.children == self.children.deep_view(),
    {
        assert(self@.children =~= self.children.deep_view());
    }

    /// A node of `rule` that spans `text` and holds `children`.
    pub fn new(rule: Rule, text: &str, children: Vec<Node>) -> (node: Node)
        ensures
            node@ == (NodeModel { rule, text: text@, children: children.deep_view() }),
    {
        let node = Node { rule, text: String::from_str(text), children };
        proof {
            node.lemma_view();
        }
        node
    }

    /// A node of `rule` that spans `text` and holds no other node.
    pub fn leaf(rule: Rule, text: &str) -> (node: Node)
        ensures
            node@ == (NodeModel { rule, text: text@, children: Seq::empty() }),
    {
        let node = Node { rule, text: String::from_str(text), children: Vec::new() };
        proof {
            node.lemma_view();
            assert(node.children.deep_view() =~= Seq::empty());
        }
        node
    }
}

} // verus!
