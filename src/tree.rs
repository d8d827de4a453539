//! The command tree: each node names a command, the positionals it takes
//! before a subcommand, its usage text and its subcommands.
use vstd::prelude::*;

verus! {

/// One command of the tree. Hidden nodes can still be run but are left out
/// of the generated documentation.
pub struct CommandNode {
    pub name: String,
    pub positionals: Vec<String>,
    pub usage: String,
    pub hidden: bool,
    pub children: Vec<CommandNode>,
}

/// Whether following `path` (child positions) from `node` reaches a node that
/// is shown, that is one that neither it nor any node above it is hidden.
pub open spec fn shown_at(node: CommandNode, path: Seq<nat>) -> bool
    decreases node,
{
    if node.hidden {
        false
    } else if path.len() == 0 {
        true
    } else if path[0] < node.children.len() {
        shown_at(node.children@[path[0] as int], path.drop_first())
    } else {
        false
    }
}

impl CommandNode {
    /// A node with no positionals and no subcommands.
    pub fn leaf(name: String, usage: String) -> (r: CommandNode)
        ensures
            r.name == name,
            r.usage == usage,
            r.positionals@.len() == 0,
            r.children@.len() == 0,
            !r.hidden,
    {
        CommandNode { name, positionals: Vec::new(), usage, hidden: false, children: Vec::new() }
    }
}

} // verus!
