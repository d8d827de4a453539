//! Whole-document passes applied to a rendered tree: renaming the binary,
//! retitling the root section, and tidying whitespace.
use vstd::prelude::*;
use vstd::string::StringExecFns;
use crate::render::{render, render_doc};
use crate::text::push_char;
use crate::tree::CommandNode;

verus! {

/// `s` with every match of `pat`, taken left to right without overlap,
/// replaced by `rep`. An empty pattern leaves `s` as it is.
pub open spec fn replace_all(s: Seq<char>, pat: Seq<char>, rep: Seq<char>) -> Seq<char>
    decreases s.len(),
{
    if pat.len() == 0 || s.len() < pat.len() {
        s
    } else if s.take(pat.len() as int) == pat {
        rep + replace_all(s.skip(pat.len() as int), pat, rep)
    } else {
        seq![s[0]] + replace_all(s.drop_first(), pat, rep)
    }
}

/// `s` with its first match of `pat` (if any) replaced by `rep`.
pub open spec fn replace_first(s: Seq<char>, pat: Seq<char>, rep: Seq<char>) -> Seq<char>
    decreases s.len(),
{
    if pat.len() == 0 || s.len() < pat.len() {
        s
    } else if s.take(pat.len() as int) == pat {
        rep + s.skip(pat.len() as int)
    } else {
        seq![s[0]] + replace_first(s.drop_first(), pat, rep)
    }
}

pub open spec fn matches_at(s: Seq<char>, i: int, pat: Seq<char>) -> bool {
    i + pat.len() <= s.len() && s.subrange(i, i + pat.len()) == pat
}

fn match_at(s: &Vec<char>, i: usize, pat: &Vec<char>) -> (r: bool)
    requires
        i <= s.len(),
    ensures
        r == matches_at(s@, i as int, pat@),
{
    if pat.len() > s.len() - i {
        return false;
    }
    let mut k: usize = 0;
    while k < pat.len()
        invariant
            i + pat.len() <= s.len(),
            k <= pat.len(),
            forall|j: int| 0 <= j < k ==> s@[i + j] == pat@[j],
        decreases pat.len() - k,
    {
        if s[i + k] != pat[k] {
            assert(s@.subrange(i as int, i + pat.len())[k as int] != pat@[k as int]);
            return false;
        }
        k = k + 1;
    }
    assert(s@.subrange(i as int, i + pat.len()) =~= pat@);
    true
}

fn push_all(out: &mut String, cs: &Vec<char>)
    ensures
        final(out)@ == old(out)@ + cs@,
{
    let mut k: usize = 0;
    while k < cs.len()
        invariant
            k <= cs.len(),
            out@ == old(out)@ + cs@.take(k as int),
        decreases cs.len() - k,
    {
        push_char(out, cs[k]);
        assert(cs@.take(k + 1) =~= cs@.take(k as int).push(cs@[k as int]));
        k = k + 1;
    }
    assert(cs@.take(k as int) =~= cs@);
}

proof fn lemma_match_step(s: Seq<char>, i: int, pat: Seq<char>)
    requires
        0 <= i <= s.len(),
        pat.len() > 0,
    ensures
        s.skip(i).len() >= pat.len() ==> (s.skip(i).take(pat.len() as int) == pat <==> matches_at(
            s,
            i,
            pat,
        )),
        s.skip(i).len() >= pat.len() ==> s.skip(i).skip(pat.len() as int) == s.skip(
            i + pat.len(),
        ),
        i < s.len() ==> s.skip(i).drop_first() == s.skip(i + 1) && s.skip(i)[0] == s[i],
{
    assert(s.skip(i).take(pat.len() as int) =~= s.subrange(i, i + pat.len()) || s.skip(i).len()
        < pat.len());
    assert(s.skip(i).skip(pat.len() as int) =~= s.skip(i + pat.len()) || s.skip(i).len()
        < pat.len());
    assert(s.skip(i).drop_first() =~= s.skip(i + 1) || i >= s.len());
}

/// Replaces every match of `pat` in `s` by `rep`, left to right.
pub fn replace_all_in(s: &str, pat: &str, rep: &str) -> (r: String)
    ensures
        r@ == replace_all(s@, pat@, rep@),
{
    let cs = crate::text::chars_of(s);
    let pc = crate::text::chars_of(pat);
    let rc = crate::text::chars_of(rep);
    let mut out = String::new();
    if pc.len() == 0 {
        push_all(&mut out, &cs);
        return out;
    }
    let mut i: usize = 0;
    assert(cs@.skip(0) =~= cs@);
    assert(out@ + replace_all(cs@, pc@, rc@) =~= replace_all(cs@, pc@, rc@));
    while i < cs.len()
        invariant
            i <= cs.len(),
            pc@.len() > 0,
            out@ + replace_all(cs@.skip(i as int), pc@, rc@) == replace_all(cs@, pc@, rc@),
        decreases cs.len() - i,
    {
        proof {
            lemma_match_step(cs@, i as int, pc@);
        }
        if match_at(&cs, i, &pc) {
            push_all(&mut out, &rc);
            i = i + pc.len();
        } else {
            push_char(&mut out, cs[i]);
            i = i + 1;
        }
    }
    assert(out@ =~= out@ + cs@.skip(i as int));
    out
}

/// Replaces the first match of `pat` in `s` by `rep`.
pub fn replace_first_in(s: &str, pat: &str, rep: &str) -> (r: String)
    ensures
        r@ == replace_first(s@, pat@, rep@),
{
    let cs = crate::text::chars_of(s);
    let pc = crate::text::chars_of(pat);
    let rc = crate::text::chars_of(rep);
    let mut out = String::new();
    if pc.len() == 0 {
        push_all(&mut out, &cs);
        return out;
    }
    let mut i: usize = 0;
    assert(cs@.skip(0) =~= cs@);
    assert(out@ + replace_first(cs@, pc@, rc@) =~= replace_first(cs@, pc@, rc@));
    while i < cs.len()
        invariant
            i <= cs.len(),
            pc@.len() > 0,
            cs@ == s@,
            pc@ == pat@,
            rc@ == rep@,
            out@ + replace_first(cs@.skip(i as int), pc@, rc@) == replace_first(cs@, pc@, rc@),
        decreases cs.len() - i,
    {
        proof {
            lemma_match_step(cs@, i as int, pc@);
        }
        if match_at(&cs, i, &pc) {
            push_all(&mut out, &rc);
            let mut k: usize = i + pc.len();
            while k < cs.len()
                invariant
                    i + pc@.len() <= k <= cs.len(),
                    out@ + cs@.subrange(k as int, cs@.len() as int) == replace_first(
                        cs@,
                        pc@,
                        rc@,
                    ),
                decreases cs.len() - k,
            {
                assert(cs@.subrange(k as int, cs@.len() as int) =~= seq![cs@[k as int]]
                    + cs@.subrange(k + 1, cs@.len() as int));
                push_char(&mut out, cs[k]);
                k = k + 1;
            }
            assert(out@ =~= out@ + cs@.subrange(k as int, cs@.len() as int));
            assert(cs@.skip(i + pc@.len()) =~= cs@.subrange(i + pc@.len(), cs@.len() as int));
            return out;
        } else {
            push_char(&mut out, cs[i]);
            i = i + 1;
        }
    }
    assert(out@ =~= out@ + cs@.skip(i as int));
    out
}


/// Whether `c` has Unicode's White_Space property, which is what
/// `char::is_whitespace` tests.
pub open spec fn is_space(c: char) -> bool {
    let u = c as u32;
    (0x9 <= u <= 0xd) || u == 0x20 || u == 0x85 || u == 0xa0 || u == 0x1680 || (0x2000 <= u
        <= 0x200a) || u == 0x2028 || u == 0x2029 || u == 0x202f || u == 0x205f || u == 0x3000
}

fn space(c: char) -> (r: bool)
    ensures
        r == is_space(c),
{
    let u = c as u32;
    (0x9 <= u && u <= 0xd) || u == 0x20 || u == 0x85 || u == 0xa0 || u == 0x1680 || (0x2000 <= u
        && u <= 0x200a) || u == 0x2028 || u == 0x2029 || u == 0x202f || u == 0x205f || u == 0x3000
}

/// `s` without its trailing whitespace.
pub open spec fn trim_end(s: Seq<char>) -> Seq<char>
    decreases s.len(),
{
    if s.len() > 0 && is_space(s.last()) {
        trim_end(s.drop_last())
    } else {
        s
    }
}

/// The pieces of `s` between line feeds; there is always at least one.
pub open spec fn pieces(s: Seq<char>) -> Seq<Seq<char>>
    decreases s.len(),
{
    if s.len() == 0 {
        seq![seq![]]
    } else if s.last() == '\n' {
        pieces(s.drop_last()).push(seq![])
    } else {
        let p = pieces(s.drop_last());
        p.update(p.len() - 1, p.last().push(s.last()))
    }
}

/// The lines of `s`: its pieces, less a last one that is empty.
pub open spec fn lines(s: Seq<char>) -> Seq<Seq<char>> {
    let p = pieces(s);
    if p.last().len() == 0 {
        p.drop_last()
    } else {
        p
    }
}

/// Lines joined by line feeds.
pub open spec fn join_lines(ls: Seq<Seq<char>>) -> Seq<char>
    decreases ls.len(),
{
    if ls.len() == 0 {
        seq![]
    } else if ls.len() == 1 {
        ls[0]
    } else {
        join_lines(ls.drop_last()) + seq!['\n'] + ls.last()
    }
}

/// The lines of `s`, each without trailing whitespace, joined by line feeds.
pub open spec fn trimmed_lines(s: Seq<char>) -> Seq<char> {
    join_lines(lines(s).map_values(|l: Seq<char>| trim_end(l)))
}

proof fn lemma_pieces_nonempty(s: Seq<char>)
    ensures
        pieces(s).len() > 0,
    decreases s.len(),
{
    if s.len() > 0 {
        lemma_pieces_nonempty(s.drop_last());
    }
}

proof fn lemma_join_push(ls: Seq<Seq<char>>, x: Seq<char>)
    ensures
        join_lines(ls.push(x)) == if ls.len() == 0 {
            x
        } else {
            join_lines(ls) + seq!['\n'] + x
        },
{
    assert(ls.push(x).drop_last() =~= ls);
}

fn push_trimmed(out: &mut String, cs: &Vec<char>, start: usize, end: usize)
    requires
        start <= end <= cs.len(),
    ensures
        final(out)@ == old(out)@ + trim_end(cs@.subrange(start as int, end as int)),
{
    let mut e: usize = end;
    while e > start && space(cs[e - 1])
        invariant
            start <= e <= end <= cs.len(),
            trim_end(cs@.subrange(start as int, e as int)) == trim_end(
                cs@.subrange(start as int, end as int),
            ),
        decreases e,
    {
        assert(cs@.subrange(start as int, e as int).drop_last() =~= cs@.subrange(
            start as int,
            e - 1,
        ));
        e = e - 1;
    }
    let mut k: usize = start;
    while k < e
        invariant
            start <= k <= e <= cs.len(),
            out@ == old(out)@ + cs@.subrange(start as int, k as int),
        decreases e - k,
    {
        push_char(out, cs[k]);
        assert(cs@.subrange(start as int, k + 1) =~= cs@.subrange(start as int, k as int).push(
            cs@[k as int],
        ));
        k = k + 1;
    }
}

fn emit_line(out: &mut String, any: bool, cs: &Vec<char>, start: usize, end: usize, Ghost(done): Ghost<Seq<Seq<char>>>)
    requires
        start <= end <= cs.len(),
        any == (done.len() > 0),
        old(out)@ == join_lines(done.map_values(|l: Seq<char>| trim_end(l))),
    ensures
        final(out)@ == join_lines(
            done.push(cs@.subrange(start as int, end as int)).map_values(|l: Seq<char>| trim_end(l)),
        ),
{
    let ghost cur = cs@.subrange(start as int, end as int);
    proof {
        lemma_join_push(done.map_values(|l: Seq<char>| trim_end(l)), trim_end(cur));
        assert(done.push(cur).map_values(|l: Seq<char>| trim_end(l)) =~= done.map_values(
            |l: Seq<char>| trim_end(l),
        ).push(trim_end(cur)));
    }
    if any {
        push_char(out, '\n');
    }
    push_trimmed(out, cs, start, end);
}

/// Strips trailing whitespace from every line of `s`; the lines are split at
/// line feeds, a final line feed ends the last line, and the result joins them
/// with line feeds.
pub fn trim_lines(s: &str) -> (r: String)
    ensures
        r@ == trimmed_lines(s@),
{
    let cs = crate::text::chars_of(s);
    let mut out = String::new();
    let mut start: usize = 0;
    let mut any = false;
    let ghost mut done: Seq<Seq<char>> = seq![];
    let mut i: usize = 0;
    assert(cs@.take(0) =~= seq![]);
    assert(pieces(cs@.take(0)) =~= done.push(cs@.subrange(0, 0)));
    assert(done.map_values(|l: Seq<char>| trim_end(l)) =~= seq![]);
    while i < cs.len()
        invariant
            start <= i <= cs.len(),
            any == (done.len() > 0),
            pieces(cs@.take(i as int)) == done.push(cs@.subrange(start as int, i as int)),
            out@ == join_lines(done.map_values(|l: Seq<char>| trim_end(l))),
        decreases cs.len() - i,
    {
        assert(cs@.take(i + 1).drop_last() =~= cs@.take(i as int));
        if cs[i] == '\n' {
            emit_line(&mut out, any, &cs, start, i, Ghost(done));
            proof {
                done = done.push(cs@.subrange(start as int, i as int));
                assert(cs@.subrange(i + 1, i + 1) =~= seq![]);
            }
            any = true;
            start = i + 1;
        } else {
            proof {
                assert(cs@.subrange(start as int, i + 1) =~= cs@.subrange(start as int, i as int).push(
                    cs@[i as int],
                ));
                assert(done.push(cs@.subrange(start as int, i as int)).update(
                    done.len() as int,
                    cs@.subrange(start as int, i + 1),
                ) =~= done.push(cs@.subrange(start as int, i + 1)));
            }
        }
        i = i + 1;
    }
    assert(cs@.take(i as int) =~= cs@);
    if start < i {
        emit_line(&mut out, any, &cs, start, i, Ghost(done));
        proof {
            assert(done.push(cs@.subrange(start as int, i as int)).last().len() > 0);
        }
    } else {
        proof {
            assert(done.push(cs@.subrange(start as int, i as int)).drop_last() =~= done);
        }
    }
    out
}

/// How the generated document names the tool.
#[derive(Debug, Clone, PartialEq, Eq)]
pub struct ReadmeNames {
    /// The name the tree's root carries.
    pub binary: String,
    /// The short public name that replaces it.
    pub alias: String,
    /// The alias with a platform's executable suffix, written as the alias.
    pub suffixed_alias: String,
    /// The document's title.
    pub title: String,
    /// The one-line description under the title.
    pub description: String,
}

pub open spec fn heading_of(word: Seq<char>) -> Seq<char> {
    seq!['#', ' '] + word
}

/// The title line, a blank line and the description.
pub open spec fn title_block(names: ReadmeNames) -> Seq<char> {
    heading_of(names.title@) + seq!['\n', '\n'] + names.description@
}

pub open spec fn renamed(doc: Seq<char>, names: ReadmeNames) -> Seq<char> {
    replace_all(replace_all(doc, names.binary@, names.alias@), names.suffixed_alias@, names.alias@)
}

/// The three passes over a rendered document: rename the binary, retitle the
/// root section once, then trim line ends and collapse double blank lines.
pub open spec fn finished(doc: Seq<char>, names: ReadmeNames) -> Seq<char> {
    let retitled = replace_first(renamed(doc, names), heading_of(names.alias@), title_block(names));
    replace_all(trimmed_lines(retitled), seq!['\n', '\n', '\n'], seq!['\n', '\n'])
}

fn heading_text(word: &str) -> (r: String)
    ensures
        r@ == heading_of(word@),
{
    let mut r = String::new();
    push_char(&mut r, '#');
    push_char(&mut r, ' ');
    r.append(word);
    r
}

/// Applies the document passes to a rendered tree.
pub fn finish_readme(doc: &str, names: &ReadmeNames) -> (r: String)
    ensures
        r@ == finished(doc@, *names),
{
    let a = replace_all_in(doc, names.binary.as_str(), names.alias.as_str());
    let b = replace_all_in(a.as_str(), names.suffixed_alias.as_str(), names.alias.as_str());
    let mut title = heading_text(names.title.as_str());
    push_char(&mut title, '\n');
    push_char(&mut title, '\n');
    title.append(names.description.as_str());
    assert(title@ =~= title_block(*names));
    let pat = heading_text(names.alias.as_str());
    let c = replace_first_in(b.as_str(), pat.as_str(), title.as_str());
    let d = trim_lines(c.as_str());
    let mut triple = String::new();
    push_char(&mut triple, '\n');
    push_char(&mut triple, '\n');
    push_char(&mut triple, '\n');
    let mut double = String::new();
    push_char(&mut double, '\n');
    push_char(&mut double, '\n');
    assert(triple@ =~= seq!['\n', '\n', '\n']);
    assert(double@ =~= seq!['\n', '\n']);
    replace_all_in(d.as_str(), triple.as_str(), double.as_str())
}

/// The finished Markdown documentation of the tree under `root`.
pub fn readme(root: &CommandNode, names: &ReadmeNames) -> (r: String)
    ensures
        r@ == finished(render_doc(*root), *names),
{
    let doc = render(root);
    finish_readme(doc.as_str(), names)
}

/// Retitling touches only the first match: where a document starts with the
/// root heading, the result is the title block followed by the rest of the
/// document unchanged, every later heading included.
pub proof fn lemma_retitle_keeps_rest(doc: Seq<char>, names: ReadmeNames)
    requires
        doc.take(heading_of(names.alias@).len() as int) == heading_of(names.alias@),
        heading_of(names.alias@).len() <= doc.len(),
    ensures
        replace_first(doc, heading_of(names.alias@), title_block(names)) == title_block(names)
            + doc.skip(heading_of(names.alias@).len() as int),
{
}

} // verus!
