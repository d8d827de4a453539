use azure_storage_cli::render::{positional_label, push_section, render};
use azure_storage_cli::tree::CommandNode;

fn node(name: &str, positionals: &[&str], usage: &str, hidden: bool, children: Vec<CommandNode>) -> CommandNode {
    CommandNode {
        name: name.to_string(),
        positionals: positionals.iter().map(|p| p.to_string()).collect(),
        usage: usage.to_string(),
        hidden,
        children,
    }
}

fn sample() -> CommandNode {
    let b = node("b", &[], "U2", false, vec![]);
    let a = node("a", &["container_name"], "U1", false, vec![b]);
    let under_hidden = node("inner", &[], "I", false, vec![]);
    let readme = node("readme", &[], "H", true, vec![under_hidden]);
    let q = node("q", &[], "U3", false, vec![]);
    node("tool", &[], "U0", false, vec![a, readme, q])
}

#[test]
fn render_pre_order_with_positionals() {
    let doc = render(&sample());
    let expected = "# tool\n\n```\nU0\n```\n\
## tool a <CONTAINER_NAME>\n\n```\nU1\n```\n\
### tool a <CONTAINER_NAME> b\n\n```\nU2\n```\n\
## tool q\n\n```\nU3\n```\n";
    assert_eq!(doc, expected);
}

#[test]
fn render_skips_hidden_and_everything_below() {
    let doc = render(&sample());
    assert!(!doc.contains("readme"));
    assert!(!doc.contains("inner"));
    assert_eq!(doc.matches("```\nU").count(), 4);
}

#[test]
fn render_hidden_root_is_empty() {
    let root = node("tool", &[], "U0", true, vec![node("a", &[], "U1", false, vec![])]);
    assert_eq!(render(&root), "");
}

#[test]
fn render_heading_depth_caps_at_six() {
    let mut cur = node("n8", &[], "u", false, vec![]);
    for i in (1..8).rev() {
        cur = node(&format!("n{i}"), &[], "u", false, vec![cur]);
    }
    let doc = render(&cur);
    let heads: Vec<usize> = doc
        .lines()
        .filter(|l| l.starts_with('#'))
        .map(|l| l.chars().take_while(|c| *c == '#').count())
        .collect();
    assert_eq!(heads, vec![1, 2, 3, 4, 5, 6, 6, 6]);
}

#[test]
fn render_is_deterministic() {
    let t = sample();
    assert_eq!(render(&t), render(&t));
    assert_eq!(render(&t), render(&sample()));
}

#[test]
fn leaf_node_renders_alone() {
    let leaf = CommandNode::leaf("solo".to_string(), "usage".to_string());
    assert_eq!(render(&leaf), "# solo\n\n```\nusage\n```\n");
}

#[test]
fn positional_label_wraps() {
    assert_eq!(positional_label("NAME"), "<NAME>");
}

#[test]
fn section_layout() {
    let mut out = String::from("x");
    push_section(&mut out, 3, "t w", "body");
    assert_eq!(out, "x### t w\n\n```\nbody\n```\n");
}
