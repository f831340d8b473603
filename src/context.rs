//! A diagnostic path of field segments, used only to build error messages.
use vstd::prelude::*;
use vstd::string::StringExecFns;

verus! {

/// One segment of the path: the field, its declared type, and a note.
#[derive(Clone, Debug)]
pub struct ContextNode {
    pub node_item: String,
    pub node_type: String,
    pub node_info: String,
}

/// A description of the whole operation and a stack of segments.
#[derive(Clone, Debug)]
pub struct Context {
    pub description: String,
    pub nodes: Vec<ContextNode>,
}

/// A segment as text.
pub type NodeView = (Seq<char>, Seq<char>, Seq<char>);

impl ContextNode {
    pub open spec fn view(&self) -> NodeView {
        (self.node_item@, self.node_type@, self.node_info@)
    }
}

/// The text of one segment in a message.
pub open spec fn render_node(n: NodeView) -> Seq<char> {
    "\n    at "@ + n.0 + " : "@ + n.1 + " >> "@ + n.2
}

/// The text of the first `k` segments.
pub open spec fn render_nodes(nodes: Seq<NodeView>, k: nat) -> Seq<char>
    decreases k,
{
    if k == 0 {
        Seq::empty()
    } else {
        render_nodes(nodes, (k - 1) as nat) + render_node(nodes[k - 1])
    }
}

impl Context {
    /// The path, outermost segment first.
    pub open spec fn path(&self) -> Seq<NodeView> {
        self.nodes@.map_values(|n: ContextNode| n.view())
    }

    /// A message followed by the description and the path.
    pub open spec fn render(&self, message: Seq<char>) -> Seq<char> {
        message + "\n  Context: "@ + self.description@ + render_nodes(
            self.path(),
            self.path().len(),
        )
    }

    pub fn new() -> (r: Context)
        ensures
            r.path().len() == 0,
            r.description@ == "Context Description Not Set"@,
    {
        proof {
            reveal_strlit("Context Description Not Set");
        }
        Context { description: "Context Description Not Set".to_string(), nodes: Vec::new() }
    }

    /// A context for one operation, with an empty path.
    pub fn with_description(description: &str) -> (r: Context)
        ensures
            r.path().len() == 0,
            r.description@ == description@,
    {
        Context { description: description.to_string(), nodes: Vec::new() }
    }

    pub fn is_empty(&self) -> (r: bool)
        ensures
            r == (self.path().len() == 0),
    {
        self.nodes.len() == 0
    }

    pub fn get_length(&self) -> (r: usize)
        ensures
            r == self.path().len(),
    {
        self.nodes.len()
    }

    /// Enters a field.
    pub fn push(&mut self, node_item: &str, node_type: &str, node_info: &str)
        ensures
            final(self).path() == old(self).path().push((node_item@, node_type@, node_info@)),
            final(self).description == old(self).description,
    {
        let node = ContextNode {
            node_item: node_item.to_string(),
            node_type: node_type.to_string(),
            node_info: node_info.to_string(),
        };
        self.nodes.push(node);
        assert(final(self).path() =~= old(self).path().push((node_item@, node_type@, node_info@)));
    }

    /// Leaves the innermost field; an empty path stays empty.
    pub fn pop(&mut self)
        ensures
            old(self).path().len() == 0 ==> final(self).path() == old(self).path(),
            old(self).path().len() > 0 ==> final(self).path() == old(self).path().drop_last(),
            final(self).description == old(self).description,
    {
        if self.nodes.len() > 0 {
            self.nodes.pop();
            assert(final(self).path() =~= old(self).path().drop_last());
        }
    }

    /// A message followed by the description and the whole path.
    pub fn print_with_context(&self, message: &str) -> (r: String)
        ensures
            r@ == self.render(message@),
    {
        let mut out = message.to_string();
        out.append("\n  Context: ");
        out.append(self.description.as_str());
        let mut i: usize = 0;
        while i < self.nodes.len()
            invariant
                i <= self.nodes.len(),
                out@ == message@ + "\n  Context: "@ + self.description@ + render_nodes(
                    self.path(),
                    i as nat,
                ),
            decreases self.nodes.len() - i,
        {
            let node = &self.nodes[i];
            out.append("\n    at ");
            out.append(node.node_item.as_str());
            out.append(" : ");
            out.append(node.node_type.as_str());
            out.append(" >> ");
            out.append(node.node_info.as_str());
            proof {
                assert(self.path()[i as int] == node.view());
                assert(render_nodes(self.path(), (i + 1) as nat) == render_nodes(self.path(), i as nat)
                    + render_node(node.view()));
            }
            assert(out@ =~= message@ + "\n  Context: "@ + self.description@ + render_nodes(
                self.path(),
                (i + 1) as nat,
            ));
            i = i + 1;
        }
        out
    }
}

} // verus!
