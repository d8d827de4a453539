//! Rendering the command tree as nested Markdown sections.
use vstd::prelude::*;
use vstd::seq_lib::lemma_flatten_concat;
use vstd::string::StringExecFns;
use crate::text::{push_char, to_upper, upper_of};
use crate::tree::{shown_at, CommandNode};

verus! {

/// Headings never nest deeper than this many markers.
pub const MAX_HEADING: usize = 6;

/// Words joined by single spaces.
pub open spec fn joined(ws: Seq<Seq<char>>) -> Seq<char>
    decreases ws.len(),
{
    if ws.len() == 0 {
        seq![]
    } else if ws.len() == 1 {
        ws[0]
    } else {
        joined(ws.drop_last()) + seq![' '] + ws.last()
    }
}

/// How a positional appears in a section title: upper-cased, in angle brackets.
pub open spec fn label(p: Seq<char>) -> Seq<char> {
    seq!['<'] + upper_of(p) + seq!['>']
}

/// The title words of a node under the words of its ancestors.
pub open spec fn node_words(node: CommandNode, words: Seq<Seq<char>>) -> Seq<Seq<char>> {
    words.push(node.name@) + node.positionals@.map_values(|p: String| label(p@))
}

/// Number of heading markers for a node `depth` nodes down from the root (the root is 1).
pub open spec fn heading_level(depth: nat) -> nat {
    if depth < MAX_HEADING {
        depth
    } else {
        MAX_HEADING as nat
    }
}

pub open spec fn hashes(n: nat) -> Seq<char>
    decreases n,
{
    if n == 0 {
        seq![]
    } else {
        hashes((n - 1) as nat).push('#')
    }
}

/// One node as the renderer meets it: where it is, its title words, its depth
/// and its usage text.
pub struct Visit {
    pub path: Seq<nat>,
    pub words: Seq<Seq<char>>,
    pub depth: nat,
    pub usage: Seq<char>,
}

/// The Markdown section of one visited node.
pub open spec fn section(v: Visit) -> Seq<char> {
    hashes(heading_level(v.depth)) + seq![' '] + joined(v.words) + seq!['\n', '\n', '`', '`', '`', '\n']
        + v.usage + seq!['\n', '`', '`', '`', '\n']
}

pub open spec fn under(i: nat, vs: Seq<Visit>) -> Seq<Visit> {
    vs.map_values(|v: Visit| Visit { path: seq![i] + v.path, ..v })
}

/// Pre-order walk of `node`, whose ancestors have title words `words` and
/// number `depth`; hidden nodes and everything below them are skipped.
pub open spec fn visits(node: CommandNode, words: Seq<Seq<char>>, depth: nat) -> Seq<Visit>
    decreases node,
{
    if node.hidden {
        seq![]
    } else {
        let w = node_words(node, words);
        seq![Visit { path: seq![], words: w, depth: depth + 1, usage: node.usage@ }]
            + visits_list(node.children@, w, depth + 1)
    }
}

/// The walks of sibling nodes `cs`, in order.
pub open spec fn visits_list(cs: Seq<CommandNode>, words: Seq<Seq<char>>, depth: nat) -> Seq<Visit>
    decreases cs,
{
    if cs.len() == 0 {
        seq![]
    } else {
        visits_list(cs.drop_last(), words, depth) + under(
            (cs.len() - 1) as nat,
            visits(cs.last(), words, depth),
        )
    }
}

pub open spec fn sections(vs: Seq<Visit>) -> Seq<char> {
    vs.map_values(|v: Visit| section(v)).flatten()
}

/// The document for a whole tree.
pub open spec fn render_doc(root: CommandNode) -> Seq<char> {
    sections(visits(root, seq![], 0))
}

proof fn lemma_sections_concat(a: Seq<Visit>, b: Seq<Visit>)
    ensures
        sections(a + b) == sections(a) + sections(b),
{
    let f = |v: Visit| section(v);
    assert((a + b).map_values(f) =~= a.map_values(f) + b.map_values(f));
    lemma_flatten_concat(a.map_values(f), b.map_values(f));
}

proof fn lemma_sections_under(i: nat, vs: Seq<Visit>)
    ensures
        sections(under(i, vs)) == sections(vs),
{
    let f = |v: Visit| section(v);
    assert(under(i, vs).map_values(f) =~= vs.map_values(f));
}

proof fn lemma_sections_one(v: Visit)
    ensures
        sections(seq![v]) == section(v),
{
    let f = |v: Visit| section(v);
    assert(seq![v].map_values(f) =~= seq![section(v)]);
    seq![section(v)].lemma_flatten_one_element();
}

proof fn lemma_joined_push(ws: Seq<Seq<char>>, x: Seq<char>)
    ensures
        joined(ws.push(x)) == if ws.len() == 0 {
            x
        } else {
            joined(ws) + seq![' '] + x
        },
{
    assert(ws.push(x).drop_last() =~= ws);
}

/// `up` as a positional's title word: `<` and `>` around it.
pub fn positional_label(up: &str) -> (r: String)
    ensures
        r@ == seq!['<'] + up@ + seq!['>'],
{
    let mut r = String::new();
    push_char(&mut r, '<');
    r.append(up);
    push_char(&mut r, '>');
    r
}

fn extend_title(title: &String, first: bool, word: &str) -> (r: String)
    ensures
        r@ == if first {
            word@
        } else {
            title@ + seq![' '] + word@
        },
{
    if first {
        let mut r = String::new();
        r.append(word);
        r
    } else {
        let mut r = title.clone();
        push_char(&mut r, ' ');
        r.append(word);
        r
    }
}

fn push_hashes(out: &mut String, n: usize)
    ensures
        final(out)@ == old(out)@ + hashes(n as nat),
{
    let mut i: usize = 0;
    while i < n
        invariant
            i <= n,
            out@ == old(out)@ + hashes(i as nat),
        decreases n - i,
    {
        push_char(out, '#');
        i = i + 1;
    }
}

/// Appends the section of a visited node.
pub fn push_section(out: &mut String, level: usize, title: &str, usage: &str)
    ensures
        final(out)@ == old(out)@ + hashes(level as nat) + seq![' '] + title@ + seq![
            '\n',
            '\n',
            '`',
            '`',
            '`',
            '\n',
        ] + usage@ + seq!['\n', '`', '`', '`', '\n'],
{
    push_hashes(out, level);
    push_char(out, ' ');
    out.append(title);
    push_char(out, '\n');
    push_char(out, '\n');
    push_char(out, '`');
    push_char(out, '`');
    push_char(out, '`');
    push_char(out, '\n');
    out.append(usage);
    push_char(out, '\n');
    push_char(out, '`');
    push_char(out, '`');
    push_char(out, '`');
    push_char(out, '\n');
    assert(final(out)@ =~= old(out)@ + hashes(level as nat) + seq![' '] + title@ + seq![
        '\n',
        '\n',
        '`',
        '`',
        '`',
        '\n',
    ] + usage@ + seq!['\n', '`', '`', '`', '\n']);
}


fn render_into(
    node: &CommandNode,
    out: &mut String,
    title: &String,
    first: bool,
    level: usize,
    Ghost(words): Ghost<Seq<Seq<char>>>,
    Ghost(depth): Ghost<nat>,
)
    requires
        title@ == joined(words),
        first == (words.len() == 0),
        level == heading_level(depth),
    ensures
        final(out)@ == old(out)@ + sections(visits(*node, words, depth)),
    decreases node,
{
    if node.hidden {
        proof {
            assert(sections(seq![]) =~= seq![]);
        }
        return;
    }
    let mut t = extend_title(title, first, node.name.as_str());
    let ghost mut w = words.push(node.name@);
    proof {
        lemma_joined_push(words, node.name@);
    }
    let mut k: usize = 0;
    while k < node.positionals.len()
        invariant
            k <= node.positionals@.len(),
            t@ == joined(w),
            w.len() > 0,
            w == words.push(node.name@) + node.positionals@.take(k as int).map_values(
                |p: String| label(p@),
            ),
        decreases node.positionals@.len() - k,
    {
        let up = to_upper(node.positionals[k].as_str());
        let lab = positional_label(up.as_str());
        t = extend_title(&t, false, lab.as_str());
        proof {
            lemma_joined_push(w, lab@);
            assert(node.positionals@.take(k + 1).map_values(|p: String| label(p@))
                =~= node.positionals@.take(k as int).map_values(|p: String| label(p@)).push(
                lab@,
            ));
            w = w.push(lab@);
        }
        k = k + 1;
    }
    proof {
        assert(node.positionals@.take(k as int) =~= node.positionals@);
    }
    let next: usize = if level < MAX_HEADING {
        level + 1
    } else {
        MAX_HEADING
    };
    let ghost start = out@;
    push_section(out, next, t.as_str(), node.usage.as_str());
    let ghost me = Visit { path: seq![], words: w, depth: depth + 1, usage: node.usage@ };
    proof {
        lemma_sections_one(me);
        assert(visits_list(node.children@.take(0), w, depth + 1) =~= seq![]);
        assert(sections(seq![]) =~= seq![]);
    }
    let mut i: usize = 0;
    while i < node.children.len()
        invariant
            i <= node.children@.len(),
            t@ == joined(w),
            w.len() > 0,
            next == heading_level(depth + 1),
            w == node_words(*node, words),
            out@ == start + section(me) + sections(
                visits_list(node.children@.take(i as int), w, depth + 1),
            ),
        decreases node.children@.len() - i,
    {
        let ghost before = out@;
        render_into(&node.children[i], out, &t, false, next, Ghost(w), Ghost(depth + 1));
        proof {
            let cs = node.children@.take(i + 1);
            assert(cs.drop_last() =~= node.children@.take(i as int));
            let a = visits_list(node.children@.take(i as int), w, depth + 1);
            let b = visits(node.children@[i as int], w, depth + 1);
            lemma_sections_concat(a, under(i as nat, b));
            lemma_sections_under(i as nat, b);
        }
        i = i + 1;
    }
    proof {
        assert(node.children@.take(i as int) =~= node.children@);
        lemma_sections_concat(seq![me], visits_list(node.children@, w, depth + 1));
    }
}

/// The Markdown document of the tree under `root`: one section per shown
/// node, in pre-order.
pub fn render(root: &CommandNode) -> (r: String)
    ensures
        r@ == render_doc(*root),
{
    let mut out = String::new();
    let title = String::new();
    render_into(root, &mut out, &title, true, 0, Ghost(Seq::empty()), Ghost(0nat));
    out
}


proof fn lemma_under_path(i: nat, q: Seq<nat>)
    ensures
        (seq![i] + q).len() > 0,
        (seq![i] + q)[0] == i,
        (seq![i] + q).drop_first() == q,
{
    assert((seq![i] + q).drop_first() =~= q);
}

proof fn lemma_visits_node(node: CommandNode, words: Seq<Seq<char>>, depth: nat)
    ensures
        forall|p: Seq<nat>|
            (exists|k: int|
                0 <= k < visits(node, words, depth).len() && #[trigger] visits(
                    node,
                    words,
                    depth,
                )[k].path == p) <==> shown_at(node, p),
        forall|j: int, k: int|
            0 <= j < k < visits(node, words, depth).len() ==> visits(node, words, depth)[j].path
                != visits(node, words, depth)[k].path,
        forall|k: int|
            0 <= k < visits(node, words, depth).len() ==> #[trigger] visits(
                node,
                words,
                depth,
            )[k].depth == depth + visits(node, words, depth)[k].path.len() + 1,
    decreases node,
{
    if !node.hidden {
        let w = node_words(node, words);
        let l = visits_list(node.children@, w, depth + 1);
        let vs = visits(node, words, depth);
        lemma_visits_list(node.children@, w, depth + 1);
        assert forall|p: Seq<nat>|
            (exists|k: int| 0 <= k < vs.len() && #[trigger] vs[k].path == p) <==> shown_at(
                node,
                p,
            ) by {
            if p.len() == 0 {
                assert(vs[0].path =~= p);
            } else {
                if shown_at(node, p) {
                    let m = choose|m: int| 0 <= m < l.len() && #[trigger] l[m].path == p;
                    assert(vs[m + 1].path == p);
                }
                if exists|k: int| 0 <= k < vs.len() && #[trigger] vs[k].path == p {
                    let k = choose|k: int| 0 <= k < vs.len() && #[trigger] vs[k].path == p;
                    assert(l[k - 1].path == p);
                }
            }
        }
        assert forall|j: int, k: int| 0 <= j < k < vs.len() implies vs[j].path != vs[k].path by {
            if j > 0 {
                assert(l[j - 1].path != l[k - 1].path);
            } else {
                assert(l[k - 1].path.len() > 0);
            }
        }
        assert forall|k: int| 0 <= k < vs.len() implies #[trigger] vs[k].depth == depth
            + vs[k].path.len() + 1 by {
            if k > 0 {
                assert(l[k - 1].depth == depth + 1 + l[k - 1].path.len());
            }
        }
    }
}

proof fn lemma_visits_list(cs: Seq<CommandNode>, words: Seq<Seq<char>>, depth: nat)
    ensures
        forall|p: Seq<nat>|
            (exists|k: int|
                0 <= k < visits_list(cs, words, depth).len() && #[trigger] visits_list(
                    cs,
                    words,
                    depth,
                )[k].path == p) <==> (p.len() > 0 && p[0] < cs.len() && shown_at(
                cs[p[0] as int],
                p.drop_first(),
            )),
        forall|k: int|
            0 <= k < visits_list(cs, words, depth).len() ==> #[trigger] visits_list(
                cs,
                words,
                depth,
            )[k].path.len() > 0 && visits_list(cs, words, depth)[k].path[0] < cs.len(),
        forall|j: int, k: int|
            0 <= j < k < visits_list(cs, words, depth).len() ==> visits_list(cs, words, depth)[j].path
                != visits_list(cs, words, depth)[k].path,
        forall|k: int|
            0 <= k < visits_list(cs, words, depth).len() ==> #[trigger] visits_list(
                cs,
                words,
                depth,
            )[k].depth == depth + visits_list(cs, words, depth)[k].path.len(),
    decreases cs,
{
    if cs.len() > 0 {
        let n = cs.len() - 1;
        let a = visits_list(cs.drop_last(), words, depth);
        let b = visits(cs.last(), words, depth);
        let u = under(n as nat, b);
        let vs = visits_list(cs, words, depth);
        assert(vs == a + u);
        lemma_visits_list(cs.drop_last(), words, depth);
        lemma_visits_node(cs.last(), words, depth);
        assert forall|k: int| 0 <= k < u.len() implies #[trigger] u[k].path == seq![n as nat]
            + b[k].path && u[k].path.len() > 0 && u[k].path[0] == n && u[k].path.drop_first()
            == b[k].path by {
            lemma_under_path(n as nat, b[k].path);
        }
        assert forall|p: Seq<nat>|
            (exists|k: int| 0 <= k < vs.len() && #[trigger] vs[k].path == p) <==> (p.len() > 0
                && p[0] < cs.len() && shown_at(cs[p[0] as int], p.drop_first())) by {
            if exists|k: int| 0 <= k < vs.len() && #[trigger] vs[k].path == p {
                let k = choose|k: int| 0 <= k < vs.len() && #[trigger] vs[k].path == p;
                if k < a.len() {
                    assert(a[k].path == p);
                    assert(cs.drop_last()[p[0] as int] == cs[p[0] as int]);
                } else {
                    assert(u[k - a.len()].path == p);
                    assert(b[k - a.len()].path == p.drop_first());
                }
            }
            if p.len() > 0 && p[0] < cs.len() && shown_at(cs[p[0] as int], p.drop_first()) {
                if p[0] < n {
                    assert(cs.drop_last()[p[0] as int] == cs[p[0] as int]);
                    let m = choose|m: int| 0 <= m < a.len() && #[trigger] a[m].path == p;
                    assert(vs[m].path == p);
                } else {
                    let m = choose|m: int|
                        0 <= m < b.len() && #[trigger] b[m].path == p.drop_first();
                    lemma_under_path(n as nat, p.drop_first());
                    assert(seq![n as nat] + p.drop_first() =~= p);
                    assert(vs[a.len() + m].path == p);
                }
            }
        }
        assert forall|j: int, k: int| 0 <= j < k < vs.len() implies vs[j].path != vs[k].path by {
            if k < a.len() {
                assert(a[j].path != a[k].path);
            } else if j < a.len() {
                assert(a[j].path.len() > 0 && a[j].path[0] < cs.drop_last().len());
                assert(u[k - a.len()].path[0] == n);
            } else {
                assert(b[j - a.len()].path != b[k - a.len()].path);
                assert(u[j - a.len()].path.drop_first() == b[j - a.len()].path);
                assert(u[k - a.len()].path.drop_first() == b[k - a.len()].path);
            }
        }
        assert forall|k: int| 0 <= k < vs.len() implies #[trigger] vs[k].path.len() > 0
            && vs[k].path[0] < cs.len() by {
            if k < a.len() {
                assert(a[k].path.len() > 0);
            } else {
                assert(u[k - a.len()].path.len() > 0);
            }
        }
        assert forall|k: int| 0 <= k < vs.len() implies #[trigger] vs[k].depth == depth
            + vs[k].path.len() by {
            if k < a.len() {
                assert(a[k].depth == depth + a[k].path.len());
            } else {
                assert(b[k - a.len()].depth == depth + b[k - a.len()].path.len() + 1);
                assert(u[k - a.len()].depth == b[k - a.len()].depth);
            }
        }
    }
}

/// The document of a tree has one section per shown node and no other: the
/// paths of the visited nodes are exactly the paths that lead to shown nodes,
/// and no path is visited twice.
pub proof fn lemma_render_visits_shown_once(root: CommandNode)
    ensures
        render_doc(root) == sections(visits(root, seq![], 0)),
        forall|p: Seq<nat>|
            (exists|k: int|
                0 <= k < visits(root, seq![], 0).len() && #[trigger] visits(
                    root,
                    seq![],
                    0,
                )[k].path == p) <==> shown_at(root, p),
        forall|j: int, k: int|
            0 <= j < k < visits(root, seq![], 0).len() ==> visits(root, seq![], 0)[j].path
                != visits(root, seq![], 0)[k].path,
{
    lemma_visits_node(root, seq![], 0);
}

/// A node `d` nodes down from the root (the root counts as 1) gets a heading
/// of `min(d, 6)` markers, so every node from depth 6 on gets the same six.
pub proof fn lemma_heading_depth(root: CommandNode, k: int)
    requires
        0 <= k < visits(root, seq![], 0).len(),
    ensures
        ({
            let v = visits(root, seq![], 0)[k];
            &&& v.depth == v.path.len() + 1
            &&& section(v).take(heading_level(v.depth) as int) == hashes(heading_level(v.depth))
            &&& heading_level(v.depth) == if v.depth < 6 {
                v.depth
            } else {
                6
            }
            &&& v.depth >= 6 ==> hashes(heading_level(v.depth)) == seq!['#', '#', '#', '#', '#', '#']
        }),
{
    lemma_visits_node(root, seq![], 0);
    let v = visits(root, seq![], 0)[k];
    lemma_hashes_len(heading_level(v.depth));
    let h = hashes(heading_level(v.depth));
    assert(section(v).take(h.len() as int) =~= h);
    if v.depth >= 6 {
        reveal_with_fuel(hashes, 7);
        assert(hashes(6) =~= seq!['#', '#', '#', '#', '#', '#']);
    }
}

proof fn lemma_hashes_len(n: nat)
    ensures
        hashes(n).len() == n,
    decreases n,
{
    if n > 0 {
        lemma_hashes_len((n - 1) as nat);
    }
}

/// Rendering depends on the tree alone: equal trees give equal documents.
pub proof fn lemma_render_deterministic(a: CommandNode, b: CommandNode)
    requires
        a == b,
    ensures
        render_doc(a) == render_doc(b),
{
}

} // verus!
