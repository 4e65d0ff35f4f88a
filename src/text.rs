use vstd::prelude::*;

use crate::model::Item;

verus! {

/// The character views of a sequence of strings.
pub open spec fn views(v: Seq<String>) -> Seq<Seq<char>> {
    v.map_values(|s: String| s@)
}

/// `parts` joined by `sep`: no separator before the first part or after the last.
pub open spec fn joined(parts: Seq<Seq<char>>, sep: Seq<char>) -> Seq<char>
    decreases parts.len(),
{
    if parts.len() == 0 {
        Seq::empty()
    } else if parts.len() == 1 {
        parts[0]
    } else {
        joined(parts.subrange(0, parts.len() - 1), sep) + sep + parts.last()
    }
}

/// Joins `parts` with `sep` between each two neighbours.
pub fn join(parts: &Vec<String>, sep: &str) -> (r: String)
    ensures
        r@ == joined(views(parts@), sep@),
{
    let mut acc = String::new();
    let n = parts.len();
    let mut i: usize = 0;
    while i < n
        invariant
            n == parts@.len(),
            i <= n,
            acc@ == joined(views(parts@.subrange(0, i as int)), sep@),
        decreases n - i,
    {
        proof {
            let pre = views(parts@.subrange(0, i as int));
            let post = views(parts@.subrange(0, i + 1));
            assert(post.subrange(0, i as int) =~= pre);
        }
        if i > 0 {
            acc.append(sep);
        }
        acc.append(parts[i].as_str());
        i = i + 1;
    }
    assert(parts@.subrange(0, n as int) =~= parts@);
    acc
}

/// The characters of `s`, one element each.
pub fn chars_of(s: &str) -> (r: Vec<char>)
    ensures
        r@ == s@,
{
    let mut r: Vec<char> = Vec::new();
    for c in it: s.chars()
        invariant
            it.seq() == s@,
            r@ == it.seq().subrange(0, it.index() as int),
    {
        r.push(c);
    }
    r
}

/// The pieces of `s` between its newline characters: one more than there are newlines.
pub open spec fn pieces(s: Seq<char>) -> Seq<Seq<char>>
    decreases s.len(),
{
    if s.len() == 0 {
        seq![Seq::empty()]
    } else {
        let p = pieces(s.subrange(0, s.len() - 1));
        if s.last() == '\n' {
            p.push(Seq::empty())
        } else {
            p.update(p.len() - 1, p.last().push(s.last()))
        }
    }
}

/// A line that ended in `\r\n`, without its `\r`.
pub open spec fn strip_cr(l: Seq<char>) -> Seq<char> {
    if l.len() > 0 && l.last() == '\r' {
        l.subrange(0, l.len() - 1)
    } else {
        l
    }
}

/// The lines of `s`: split at `\n` or `\r\n`; a final line ending adds no empty line.
pub open spec fn lines_of(s: Seq<char>) -> Seq<Seq<char>> {
    let p = pieces(s);
    let ended = p.subrange(0, p.len() - 1).map_values(|l: Seq<char>| strip_cr(l));
    if p.last().len() > 0 {
        ended.push(p.last())
    } else {
        ended
    }
}

/// Unicode white space.
pub open spec fn is_space(c: char) -> bool {
    ||| '\t' <= c <= '\r'
    ||| c == ' '
    ||| c == '\u{85}'
    ||| c == '\u{a0}'
    ||| c == '\u{1680}'
    ||| '\u{2000}' <= c <= '\u{200a}'
    ||| c == '\u{2028}'
    ||| c == '\u{2029}'
    ||| c == '\u{202f}'
    ||| c == '\u{205f}'
    ||| c == '\u{3000}'
}

pub open spec fn is_blank(l: Seq<char>) -> bool {
    forall|k: int| 0 <= k < l.len() ==> is_space(#[trigger] l[k])
}

/// The first line of `ls` that is not blank; empty when there is none.
pub open spec fn first_text(ls: Seq<Seq<char>>) -> Seq<char>
    decreases ls.len(),
{
    if ls.len() == 0 {
        Seq::empty()
    } else if !is_blank(ls[0]) {
        ls[0]
    } else {
        first_text(ls.subrange(1, ls.len() as int))
    }
}

/// The caption of a doc text: its first line that is not blank, without its line ending.
pub open spec fn caption_of(docs: Seq<char>) -> Seq<char> {
    first_text(lines_of(docs))
}

/// An item's doc text; empty for an item without one.
pub open spec fn docs_text(item: Item) -> Seq<char> {
    match item.docs {
        Some(d) => d@,
        None => Seq::empty(),
    }
}

fn is_space_char(c: char) -> (r: bool)
    ensures
        r == is_space(c),
{
    ('\t' <= c && c <= '\r') || c == ' ' || c == '\u{85}' || c == '\u{a0}' || c == '\u{1680}'
        || ('\u{2000}' <= c && c <= '\u{200a}') || c == '\u{2028}' || c == '\u{2029}'
        || c == '\u{202f}' || c == '\u{205f}' || c == '\u{3000}'
}

/// Whether `cs[from..to]` is all white space.
fn blank_between(cs: &Vec<char>, from: usize, to: usize) -> (r: bool)
    requires
        from <= to <= cs@.len(),
    ensures
        r == is_blank(cs@.subrange(from as int, to as int)),
{
    let mut k = from;
    while k < to
        invariant
            from <= k <= to <= cs@.len(),
            forall|j: int| from <= j < k ==> is_space(cs@[j]),
        decreases to - k,
    {
        if !is_space_char(cs[k]) {
            assert(!is_space(cs@.subrange(from as int, to as int)[k - from]));
            return false;
        }
        k = k + 1;
    }
    assert forall|j: int| 0 <= j < to - from implies is_space(
        #[trigger] cs@.subrange(from as int, to as int)[j],
    ) by {
        assert(cs@.subrange(from as int, to as int)[j] == cs@[from + j]);
    }
    true
}

proof fn lemma_pieces_len(s: Seq<char>)
    ensures
        pieces(s).len() >= 1,
    decreases s.len(),
{
    if s.len() > 0 {
        lemma_pieces_len(s.subrange(0, s.len() - 1));
    }
}

pub proof fn lemma_views_push(v: Seq<String>, x: String)
    ensures
        views(v.push(x)) == views(v).push(x@),
{
    assert(views(v.push(x)) =~= views(v).push(x@));
}

proof fn lemma_pieces_step(s: Seq<char>, i: int)
    requires
        0 <= i < s.len(),
    ensures
        pieces(s.subrange(0, i + 1)) == ({
            let p = pieces(s.subrange(0, i));
            if s[i] == '\n' {
                p.push(Seq::empty())
            } else {
                p.update(p.len() - 1, p.last().push(s[i]))
            }
        }),
{
    let t = s.subrange(0, i + 1);
    assert(t.subrange(0, t.len() - 1) =~= s.subrange(0, i));
}

/// The pieces of `s` between its newline characters.
pub fn split_pieces(s: &str) -> (r: Vec<String>)
    ensures
        views(r@) == pieces(s@),
{
    let cs = chars_of(s);
    let n = cs.len();
    let mut done: Vec<String> = Vec::new();
    let mut start: usize = 0;
    let mut i: usize = 0;
    assert(s@.subrange(0, 0) =~= Seq::<char>::empty());
    while i < n
        invariant
            n == cs@.len(),
            cs@ == s@,
            start <= i <= n,
            pieces(s@.subrange(0, i as int)) =~= views(done@).push(s@.subrange(start as int, i as int)),
        decreases n - i,
    {
        proof {
            lemma_pieces_step(s@, i as int);
        }
        if cs[i] == '\n' {
            let piece = String::from_str(s.substring_char(start, i));
            proof {
                lemma_views_push(done@, piece);
            }
            done.push(piece);
            start = i + 1;
            assert(s@.subrange(start as int, i + 1) =~= Seq::<char>::empty());
        } else {
            assert(s@.subrange(start as int, i + 1) =~= s@.subrange(start as int, i as int).push(s@[i as int]));
        }
        i = i + 1;
    }
    let last = String::from_str(s.substring_char(start, n));
    proof {
        lemma_views_push(done@, last);
    }
    done.push(last);
    assert(s@.subrange(0, n as int) =~= s@);
    assert(views(done@) =~= pieces(s@));
    done
}

/// The lines of `s`, as `str::lines` gives them.
pub fn split_lines(s: &str) -> (r: Vec<String>)
    ensures
        views(r@) == lines_of(s@),
{
    let p = split_pieces(s);
    let ghost pv = views(p@);
    proof {
        lemma_pieces_len(s@);
    }
    let n = p.len();
    let mut r: Vec<String> = Vec::new();
    let mut i: usize = 0;
    while i + 1 < n
        invariant
            n == p@.len(),
            n >= 1,
            i + 1 <= n,
            pv == views(p@),
            views(r@) =~= pv.subrange(0, i as int).map_values(|l: Seq<char>| strip_cr(l)),
        decreases n - i,
    {
        let cs = chars_of(p[i].as_str());
        let len = cs.len();
        let line = if len > 0 && cs[len - 1] == '\r' {
            String::from_str(p[i].as_str().substring_char(0, len - 1))
        } else {
            String::from_str(p[i].as_str())
        };
        assert(p[i as int]@.subrange(0, len as int) =~= p[i as int]@);
        assert(line@ == strip_cr(pv[i as int]));
        proof {
            lemma_views_push(r@, line);
            assert(pv.subrange(0, i + 1).map_values(|l: Seq<char>| strip_cr(l)) =~= pv.subrange(
                0,
                i as int,
            ).map_values(|l: Seq<char>| strip_cr(l)).push(strip_cr(pv[i as int])));
        }
        r.push(line);
        i = i + 1;
    }
    let last = chars_of(p[n - 1].as_str());
    assert(pv.subrange(0, pv.len() - 1) =~= pv.subrange(0, i as int));
    if last.len() > 0 {
        let l = String::from_str(p[n - 1].as_str());
        proof {
            lemma_views_push(r@, l);
        }
        r.push(l);
    }
    r
}

/// The caption of an item: the first line of its doc text that is not blank.
pub fn caption(item: &Item) -> (r: String)
    ensures
        r@ == caption_of(docs_text(*item)),
{
    let docs: &str = match &item.docs {
        Some(d) => d.as_str(),
        None => "",
    };
    proof {
        reveal_strlit("");
    }
    let p = split_lines(docs);
    let n = p.len();
    let mut i: usize = 0;
    assert(views(p@).subrange(0, n as int) =~= views(p@));
    while i < n
        invariant
            n == p@.len(),
            i <= n,
            docs@ == docs_text(*item),
            first_text(views(p@).subrange(i as int, n as int)) == caption_of(docs@),
        decreases n - i,
    {
        let cs = chars_of(p[i].as_str());
        let blank = blank_between(&cs, 0, cs.len());
        assert(cs@.subrange(0, cs@.len() as int) =~= cs@);
        let ghost rest = views(p@).subrange(i as int, n as int);
        assert(rest[0] == p@[i as int]@);
        assert(rest.subrange(1, rest.len() as int) =~= views(p@).subrange(i + 1, n as int));
        if !blank {
            return String::from_str(p[i].as_str());
        }
        i = i + 1;
    }
    String::new()
}

/// Where a line of doc text stands with respect to fenced code blocks.
#[derive(Clone, Copy, Debug, PartialEq, Eq, Structural)]
pub enum Fence {
    /// Outside any code block.
    Outside,
    /// Inside a block of Rust code: unlabelled, or labelled `rust`.
    Rust,
    /// Inside a block in another language.
    Other,
}

/// The line opens or closes a fence: it starts with three backticks.
pub open spec fn is_fence(l: Seq<char>) -> bool {
    l.len() >= 3 && l[0] == '`' && l[1] == '`' && l[2] == '`'
}

/// A fence label that means Rust code: blank, or `rust` alone or followed by white space.
pub open spec fn is_rust_label(info: Seq<char>) -> bool {
    ||| is_blank(info)
    ||| {
        &&& info.len() >= 4
        &&& info[0] == 'r' && info[1] == 'u' && info[2] == 's' && info[3] == 't'
        &&& (info.len() == 4 || is_space(info[4]))
    }
}

/// A fence line whose label means Rust code; also the line that closes any block.
pub open spec fn is_rust_fence(l: Seq<char>) -> bool {
    is_fence(l) && is_rust_label(l.subrange(3, l.len() as int))
}

/// A line of Rust code that documentation hides: it starts with `#` but not with `#[`.
pub open spec fn is_hidden_line(l: Seq<char>) -> bool {
    l.len() > 0 && l[0] == '#' && !(l.len() > 1 && l[1] == '[')
}

/// The state after a line, and what the line turns into in the output.
pub open spec fn fence_step(st: Fence, l: Seq<char>) -> (Fence, Option<Seq<char>>) {
    match st {
        Fence::Outside => if is_rust_fence(l) {
            (Fence::Rust, Some("```rust"@))
        } else if is_fence(l) {
            (Fence::Other, Some(l))
        } else {
            (Fence::Outside, Some(l))
        },
        Fence::Rust => {
            let next = if is_rust_fence(l) { Fence::Outside } else { Fence::Rust };
            if is_hidden_line(l) { (next, None) } else { (next, Some(l)) }
        },
        Fence::Other => (if is_rust_fence(l) { Fence::Outside } else { Fence::Other }, Some(l)),
    }
}

/// The state after `ls` and the lines they turn into, starting outside any block.
pub open spec fn fence_run(ls: Seq<Seq<char>>) -> (Fence, Seq<Seq<char>>)
    decreases ls.len(),
{
    if ls.len() == 0 {
        (Fence::Outside, Seq::empty())
    } else {
        let (st, out) = fence_run(ls.subrange(0, ls.len() - 1));
        let (next, emitted) = fence_step(st, ls.last());
        match emitted {
            Some(l) => (next, out.push(l)),
            None => (next, out),
        }
    }
}

/// Doc text with hidden lines of Rust examples removed and Rust fences written as ```` ```rust ````.
pub open spec fn cleaned_docs(docs: Seq<char>) -> Seq<char> {
    joined(fence_run(lines_of(docs)).1, "\n"@)
}

fn step_line(st: Fence, line: &String) -> (r: (Fence, Option<String>))
    ensures
        r.0 == fence_step(st, line@).0,
        r.1 is Some == fence_step(st, line@).1 is Some,
        r.1 is Some ==> r.1->0@ == fence_step(st, line@).1->0,
{
    let cs = chars_of(line.as_str());
    let n = cs.len();
    let fence = n >= 3 && cs[0] == '`' && cs[1] == '`' && cs[2] == '`';
    let rust_fence = fence && (blank_between(&cs, 3, n) || (n >= 7 && cs[3] == 'r' && cs[4] == 'u'
        && cs[5] == 's' && cs[6] == 't' && (n == 7 || is_space_char(cs[7]))));
    proof {
        let info = line@.subrange(3, line@.len() as int);
        if fence {
            assert(info.len() >= 4 ==> info[0] == cs@[3] && info[1] == cs@[4] && info[2] == cs@[5]
                && info[3] == cs@[6]);
            assert(info.len() > 4 ==> info[4] == cs@[7]);
        }
    }
    match st {
        Fence::Outside => {
            if rust_fence {
                (Fence::Rust, Some(String::from_str("```rust")))
            } else if fence {
                (Fence::Other, Some(line.clone()))
            } else {
                (Fence::Outside, Some(line.clone()))
            }
        },
        Fence::Rust => {
            let next = if rust_fence {
                Fence::Outside
            } else {
                Fence::Rust
            };
            if n > 0 && cs[0] == '#' && !(n > 1 && cs[1] == '[') {
                (next, None)
            } else {
                (next, Some(line.clone()))
            }
        },
        Fence::Other => {
            let next = if rust_fence {
                Fence::Outside
            } else {
                Fence::Other
            };
            (next, Some(line.clone()))
        },
    }
}

/// Hides the setup lines of Rust examples in `docs`: inside a code block that is
/// unlabelled or labelled `rust`, a line that starts with `#` but not `#[` is dropped, and
/// the opening fence becomes ```` ```rust ````. Blocks in other languages pass unchanged.
pub fn hide_code_block_lines(docs: &str) -> (r: String)
    ensures
        r@ == cleaned_docs(docs@),
{
    let ls = split_lines(docs);
    let ghost lv = views(ls@);
    let n = ls.len();
    let mut out: Vec<String> = Vec::new();
    let mut st = Fence::Outside;
    let mut i: usize = 0;
    while i < n
        invariant
            n == ls@.len(),
            i <= n,
            lv == views(ls@),
            (st, views(out@)) == fence_run(lv.subrange(0, i as int)),
        decreases n - i,
    {
        let ghost pre = lv.subrange(0, i as int);
        assert(lv.subrange(0, i + 1).subrange(0, i as int) =~= pre);
        let (next, emitted) = step_line(st, &ls[i]);
        match emitted {
            Some(l) => {
                proof {
                    lemma_views_push(out@, l);
                }
                out.push(l);
            },
            None => {},
        }
        st = next;
        i = i + 1;
    }
    assert(lv.subrange(0, n as int) =~= lv);
    join(&out, "\n")
}

} // verus!
