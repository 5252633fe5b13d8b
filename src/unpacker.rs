//! The archive disassembler: one record per 4-byte word of a binary archive
//! in, annotated text lines out.

use vstd::prelude::*;
use vstd::string::*;
use crate::archive::{
    archive_data, archive_labels, archive_pointers, archive_texts, image_data, image_labels,
    image_parses, image_pointers, image_texts, le_u32, lookup, word_in,
    archive_size, ascii_string, header_fits, header_sizes_fit, parse_archive, read_bytes, read_labels,
    read_pointer, read_string,
};
use crate::text::{decimal, hex_byte, push_decimal, push_hex_byte};

verus! {

/// What the archive reports about the word at one 4-byte aligned offset.
pub struct WordInfo {
    /// The in-archive offset that a pointer stored in this word resolves to.
    pub pointer: Option<usize>,
    /// The labels attached to this offset, in the archive's order.
    pub labels: Vec<String>,
    /// A short printable string that starts at this offset, if any.
    pub inline_text: Option<String>,
    /// A text entry that the archive reads at this offset, if any.
    pub text: Option<String>,
    /// How many words the text entry spans (1 for a one-word entry).
    pub text_words: usize,
    /// The word's four bytes, in archive order.
    pub bytes: [u8; 4],
}

/// One line of the disassembly.
#[derive(Debug, PartialEq, Eq)]
pub enum Line {
    Destination(usize),
    Label(String),
    PointerSource(usize, Option<String>),
    RawWord([u8; 4]),
    PlainString(String),
}

/// The mathematical form of a [`Line`].
pub enum LineView {
    Destination(nat),
    Label(Seq<char>),
    PointerSource(nat, Option<Seq<char>>),
    RawWord(Seq<u8>),
    PlainString(Seq<char>),
}

/// The view of an optional string.
pub open spec fn opt_view(o: Option<String>) -> Option<Seq<char>> {
    match o {
        Some(s) => Some(s@),
        None => None,
    }
}

impl View for Line {
    type V = LineView;

    open spec fn view(&self) -> LineView {
        match self {
            Line::Destination(id) => LineView::Destination(*id as nat),
            Line::Label(t) => LineView::Label(t@),
            Line::PointerSource(id, t) => LineView::PointerSource(*id as nat, opt_view(*t)),
            Line::RawWord(b) => LineView::RawWord(b@),
            Line::PlainString(t) => LineView::PlainString(t@),
        }
    }
}

/// The destinations found among the pointers of the first `n` words, each
/// once, in the order in which a forward scan first meets them. A
/// destination's id is its index here.
pub open spec fn destinations(ws: Seq<WordInfo>, n: int) -> Seq<usize>
    decreases n,
{
    if n <= 0 {
        seq![]
    } else {
        let d = destinations(ws, n - 1);
        match ws[n - 1].pointer {
            Some(p) => if d.contains(p) { d } else { d.push(p) },
            None => d,
        }
    }
}

/// All destinations of the archive.
pub open spec fn all_destinations(ws: Seq<WordInfo>) -> Seq<usize> {
    destinations(ws, ws.len() as int)
}

/// Whether `c` has Unicode's White_Space property, as `char::is_whitespace`
/// (and so `str::trim`) tests it.
pub open spec fn is_white(c: char) -> bool {
    let u = c as u32;
    (0x9 <= u <= 0xd) || u == 0x20 || u == 0x85 || u == 0xa0 || u == 0x1680
        || (0x2000 <= u <= 0x200a) || u == 0x2028 || u == 0x2029 || u == 0x202f
        || u == 0x205f || u == 0x3000
}

/// Whether an inline string is blank: empty, or only whitespace.
pub open spec fn is_blank(t: Seq<char>) -> bool {
    forall|k: int| 0 <= k < t.len() ==> is_white(t[k])
}

fn white(c: char) -> (r: bool)
    ensures
        r == is_white(c),
{
    let u = c as u32;
    (0x9 <= u && u <= 0xd) || u == 0x20 || u == 0x85 || u == 0xa0 || u == 0x1680
        || (0x2000 <= u && u <= 0x200a) || u == 0x2028 || u == 0x2029 || u == 0x202f
        || u == 0x205f || u == 0x3000
}

/// The inline string kept on a pointer-source line.
pub open spec fn kept_inline(t: Option<String>) -> Option<Seq<char>> {
    match t {
        Some(s) => if is_blank(s@) { None } else { Some(s@) },
        None => None,
    }
}

/// The index of the word after the content of word `i`.
pub open spec fn next_index(ws: Seq<WordInfo>, i: int) -> int {
    let w = ws[i];
    if w.pointer is None && w.text is Some && w.text_words > 1 {
        if i + w.text_words >= ws.len() { ws.len() as int } else { i + w.text_words }
    } else {
        i + 1
    }
}

/// The lines that come before the content of word `i`: its destination
/// marker, then its labels.
pub open spec fn header_lines(ws: Seq<WordInfo>, i: int) -> Seq<LineView> {
    let d = all_destinations(ws);
    let dest: Seq<LineView> = if d.contains((4 * i) as usize) {
        seq![LineView::Destination(d.index_of((4 * i) as usize) as nat)]
    } else {
        seq![]
    };
    dest + ws[i].labels@.map_values(|l: String| LineView::Label(l@))
}

/// The content line of word `i`.
pub open spec fn content_line(ws: Seq<WordInfo>, i: int) -> LineView {
    let w = ws[i];
    match w.pointer {
        Some(p) => LineView::PointerSource(
            all_destinations(ws).index_of(p) as nat,
            kept_inline(w.inline_text),
        ),
        None => match w.text {
            Some(t) => LineView::PlainString(t@),
            None => LineView::RawWord(w.bytes@),
        },
    }
}

/// The disassembly of the words from index `i` on.
pub open spec fn lines_from(ws: Seq<WordInfo>, i: int) -> Seq<LineView>
    decreases ws.len() - i,
{
    if i < 0 || i >= ws.len() {
        seq![]
    } else {
        header_lines(ws, i).push(content_line(ws, i)) + lines_from(ws, next_index(ws, i))
    }
}

/// The disassembly of an archive given as its words.
pub open spec fn disassembly(ws: Seq<WordInfo>) -> Seq<LineView> {
    lines_from(ws, 0)
}

/// The destinations of a shorter prefix of words are a prefix of those of
/// a longer one.
pub proof fn lemma_destinations_prefix(ws: Seq<WordInfo>, n: int, m: int)
    requires
        0 <= n <= m,
    ensures
        destinations(ws, n).len() <= destinations(ws, m).len(),
        destinations(ws, n) == destinations(ws, m).subrange(0, destinations(ws, n).len() as int),
    decreases m - n,
{
    if n < m {
        lemma_destinations_prefix(ws, n, m - 1);
        let a = destinations(ws, n);
        let b = destinations(ws, m - 1);
        let c = destinations(ws, m);
        assert(b.subrange(0, a.len() as int) =~= c.subrange(0, a.len() as int));
    } else {
        assert(destinations(ws, n) =~= destinations(ws, m).subrange(0, destinations(ws, n).len() as int));
    }
}

/// No destination is listed twice.
pub proof fn lemma_destinations_distinct(ws: Seq<WordInfo>, n: int)
    ensures
        destinations(ws, n).no_duplicates(),
    decreases n,
{
    if n > 0 {
        lemma_destinations_distinct(ws, n - 1);
    }
}

/// In a sequence without repeats, an element's index is where it stands.
pub proof fn lemma_index_of_distinct(s: Seq<usize>, k: int)
    requires
        s.no_duplicates(),
        0 <= k < s.len(),
    ensures
        s.index_of(s[k]) == k,
{
}

/// Every pointer read among the first `n` words has its destination
/// among the destinations of the first `n` words.
pub proof fn lemma_pointer_has_destination(ws: Seq<WordInfo>, n: int, i: int)
    requires
        0 <= i < n,
        ws[i].pointer is Some,
    ensures
        destinations(ws, n).contains(ws[i].pointer.unwrap()),
    decreases n,
{
    let p = ws[i].pointer.unwrap();
    if i < n - 1 {
        lemma_pointer_has_destination(ws, n - 1, i);
        let d = destinations(ws, n - 1);
        let k = choose|k: int| 0 <= k < d.len() && d[k] == p;
        lemma_destinations_prefix(ws, n - 1, n);
        assert(destinations(ws, n)[k] == p);
    } else {
        let d = destinations(ws, n - 1);
        if !d.contains(p) {
            assert(destinations(ws, n)[d.len() as int] == p);
        }
    }
}

/// Whether `m` maps each destination of `d` to its index there, and
/// holds nothing else.
pub open spec fn indexes(m: Map<usize, usize>, d: Seq<usize>) -> bool {
    &&& forall|k: int| 0 <= k < d.len() ==> m.contains_key(#[trigger] d[k]) && m[d[k]] == k
    &&& forall|x: usize| m.contains_key(x) ==> d.contains(x)
}

/// The id of the destination `x`, if it is one.
fn dest_id(ids: &std::collections::HashMap<usize, usize>, x: usize, Ghost(d): Ghost<Seq<usize>>) -> (r: Option<usize>)
    requires
        indexes(ids@, d),
    ensures
        match r {
            Some(k) => k < d.len() && d[k as int] == x,
            None => !d.contains(x),
        },
{
    broadcast use vstd::std_specs::hash::group_hash_axioms;
    match ids.get(&x) {
        Some(k) => {
            proof {
                assert(ids@.contains_key(x) && ids@[x] == *k);
                assert(d.contains(x));
                let j = choose|j: int| 0 <= j < d.len() && d[j] == x;
                assert(ids@[d[j]] == j);
            }
            Some(*k)
        },
        None => None,
    }
}

fn is_blank_text(t: &String) -> (r: bool)
    ensures
        r == is_blank(t@),
{
    let s = t.as_str();
    let n = s.unicode_len();
    let mut k: usize = 0;
    while k < n
        invariant
            n == s@.len(),
            s@ == t@,
            k <= n,
            forall|j: int| 0 <= j < k ==> is_white(t@[j]),
        decreases n - k,
    {
        if !white(s.get_char(k)) {
            return false;
        }
        k = k + 1;
    }
    true
}

fn clone_text(o: &Option<String>) -> (r: Option<String>)
    ensures
        opt_view(r) == opt_view(*o),
{
    match o {
        Some(s) => Some(s.clone()),
        None => None,
    }
}

/// Disassembles an archive given as its words, the word at index `i`
/// standing at offset `4 * i`.
///
/// A first pass gives each pointer destination an id, in the order in which
/// a forward scan first meets it. A second pass emits, for each word in
/// turn, its destination marker, its labels, then one content line: a
/// pointer source with its destination's id, else a text entry (which
/// consumes the words it spans), else the raw word. The result depends on
/// the words alone.
pub fn disassemble(words: &Vec<WordInfo>) -> (r: Vec<Line>)
    requires
        words@.len() * 4 <= usize::MAX,
    ensures
        r@.map_values(|l: Line| l@) == disassembly(words@),
{
    let ghost ws = words@;
    let n = words.len();
    let mut dest_ids: std::collections::HashMap<usize, usize> = std::collections::HashMap::new();
    let mut count: usize = 0;
    let ghost mut dests: Seq<usize> = Seq::empty();
    let mut ids: Vec<usize> = Vec::new();
    let mut i: usize = 0;
    proof {
        broadcast use vstd::std_specs::hash::group_hash_axioms;
        assert(indexes(dest_ids@, dests));
    }
    while i < n
        invariant
            n == ws.len(),
            ws == words@,
            i <= n,
            dests == destinations(ws, i as int),
            count == dests.len(),
            count <= i,
            indexes(dest_ids@, dests),
            ids@.len() == i,
            forall|k: int| 0 <= k < i && ws[k].pointer is Some ==>
                (ids@[k] as int) < dests.len() && dests[ids@[k] as int] == ws[k].pointer.unwrap(),
        decreases n - i,
    {
        let ghost before = dests;
        match words[i].pointer {
            Some(p) => {
                match dest_id(&dest_ids, p, Ghost(dests)) {
                    Some(k) => {
                        ids.push(k);
                    },
                    None => {
                        ids.push(count);
                        let ghost old_map = dest_ids@;
                        proof {
                            broadcast use vstd::std_specs::hash::group_hash_axioms;
                        }
                        dest_ids.insert(p, count);
                        proof {
                            broadcast use vstd::std_specs::hash::group_hash_axioms;
                            assert(dest_ids@ == old_map.insert(p, count));
                        }
                        proof {
                            broadcast use vstd::std_specs::hash::group_hash_axioms;
                            dests = dests.push(p);
                            assert forall|k: int| 0 <= k < dests.len() implies
                                dest_ids@.contains_key(#[trigger] dests[k]) && dest_ids@[dests[k]] == k by {
                                if k < before.len() {
                                    assert(before[k] != p);
                                    assert(old_map.contains_key(before[k]) && old_map[before[k]] == k);
                                    assert(dests[k] == before[k]);
                                }
                            }
                            assert forall|x: usize| dest_ids@.contains_key(x) implies dests.contains(x) by {
                                if x != p {
                                    assert(old_map.contains_key(x));
                                    assert(before.contains(x));
                                    let j = choose|j: int| 0 <= j < before.len() && before[j] == x;
                                    assert(dests[j] == x);
                                } else {
                                    assert(dests[before.len() as int] == x);
                                }
                            }
                        }
                        count = count + 1;
                    },
                }
            },
            None => {
                ids.push(0);
            },
        }
        proof {
            assert forall|k: int| 0 <= k < i + 1 && ws[k].pointer is Some implies
                (ids@[k] as int) < dests.len() && dests[ids@[k] as int] == ws[k].pointer.unwrap() by {
                if k < i {
                    assert(dests[ids@[k] as int] == before[ids@[k] as int]);
                }
            }
        }
        i = i + 1;
    }
    let ghost d = dests;
    proof {
        lemma_destinations_distinct(ws, n as int);
        assert(d == all_destinations(ws));
    }

    let mut out: Vec<Line> = Vec::new();
    let mut i: usize = 0;
    proof {
        assert(out@.map_values(|l: Line| l@) + lines_from(ws, 0) =~= disassembly(ws));
    }
    while i < n
        invariant
            n == ws.len(),
            ws == words@,
            n * 4 <= usize::MAX,
            i <= n,
            indexes(dest_ids@, d),
            d == all_destinations(ws),
            d.no_duplicates(),
            ids@.len() == n,
            forall|k: int| 0 <= k < n && ws[k].pointer is Some ==>
                (ids@[k] as int) < d.len() && d[ids@[k] as int] == ws[k].pointer.unwrap(),
            out@.map_values(|l: Line| l@) + lines_from(ws, i as int) == disassembly(ws),
        decreases n - i,
    {
        let ghost prev = out@.map_values(|l: Line| l@);
        let w = &words[i];
        let offset = 4 * i;
        match dest_id(&dest_ids, offset, Ghost(d)) {
            Some(k) => {
                proof { lemma_index_of_distinct(d, k as int); }
                out.push(Line::Destination(k));
            },
            None => {},
        }
        let ghost with_dest = out@.map_values(|l: Line| l@);
        let mut j: usize = 0;
        while j < w.labels.len()
            invariant
                j <= w.labels@.len(),
                out@.map_values(|l: Line| l@) == with_dest
                    + w.labels@.subrange(0, j as int).map_values(|l: String| LineView::Label(l@)),
            decreases w.labels@.len() - j,
        {
            let ghost before = out@;
            out.push(Line::Label(w.labels[j].clone()));
            proof {
                assert(out@.map_values(|l: Line| l@) =~= before.map_values(|l: Line| l@)
                    .push(LineView::Label(w.labels@[j as int]@)));
                assert(w.labels@.subrange(0, j + 1).map_values(|l: String| LineView::Label(l@)) =~=
                    w.labels@.subrange(0, j as int).map_values(|l: String| LineView::Label(l@))
                    .push(LineView::Label(w.labels@[j as int]@)));
                assert(out@.map_values(|l: Line| l@) =~= with_dest
                    + w.labels@.subrange(0, j + 1).map_values(|l: String| LineView::Label(l@)));
            }
            j = j + 1;
        }
        proof {
            assert(w.labels@.subrange(0, j as int) =~= w.labels@);
            assert(out@.map_values(|l: Line| l@) =~= prev + header_lines(ws, i as int));
        }
        let ghost with_header = out@;
        let next: usize;
        match w.pointer {
            Some(_) => {
                let ghost p = ws[i as int].pointer.unwrap();
                proof { lemma_index_of_distinct(d, ids@[i as int] as int); }
                let kept = match &w.inline_text {
                    Some(t) => if is_blank_text(t) { None } else { Some(t.clone()) },
                    None => None,
                };
                out.push(Line::PointerSource(ids[i], kept));
                next = i + 1;
            },
            None => {
                match &w.text {
                    Some(t) => {
                        out.push(Line::PlainString(t.clone()));
                        next = if w.text_words > 1 {
                            if w.text_words >= n - i { n } else { i + w.text_words }
                        } else {
                            i + 1
                        };
                    },
                    None => {
                        out.push(Line::RawWord(w.bytes));
                        next = i + 1;
                    },
                }
            },
        }
        proof {
            assert(out@.len() == with_header.len() + 1);
            assert(out@.subrange(0, with_header.len() as int) =~= with_header);
            assert(out@.last()@ == content_line(ws, i as int));
            assert(out@.map_values(|l: Line| l@) =~= with_header.map_values(|l: Line| l@).push(content_line(ws, i as int)));
            assert(out@.map_values(|l: Line| l@) =~= prev + header_lines(ws, i as int).push(content_line(ws, i as int)));
            assert(next == next_index(ws, i as int));
            assert(lines_from(ws, i as int) == header_lines(ws, i as int).push(content_line(ws, i as int))
                + lines_from(ws, next as int));
            assert(out@.map_values(|l: Line| l@) + lines_from(ws, next as int) =~= disassembly(ws));
        }
        i = next;
    }
    proof {
        assert(out@.map_values(|l: Line| l@) =~= disassembly(ws));
    }
    out
}

/// The printed form of one line.
pub open spec fn line_text(l: LineView) -> Seq<char> {
    match l {
        LineView::Destination(id) => seq!['D', 'E', 'S', 'T', ':', ' '] + decimal(id),
        LineView::Label(t) => seq!['L', 'A', 'B', 'E', 'L', ':', ' '] + t,
        LineView::PointerSource(id, t) => match t {
            Some(t) => seq!['S', 'R', 'C', ':', ' '] + decimal(id) + seq![' ', '/', '/', ' '] + t,
            None => seq!['S', 'R', 'C', ':', ' '] + decimal(id),
        },
        LineView::RawWord(b) => hex_byte(b[0]) + hex_byte(b[1]) + hex_byte(b[2]) + hex_byte(b[3]),
        LineView::PlainString(t) => t,
    }
}

/// The printed lines, separated by single line breaks.
pub open spec fn joined(ls: Seq<LineView>) -> Seq<char>
    decreases ls.len(),
{
    if ls.len() == 0 {
        seq![]
    } else if ls.len() == 1 {
        line_text(ls[0])
    } else {
        joined(ls.drop_last()) + seq!['\n'] + line_text(ls.last())
    }
}

/// Appends the printed form of `l` to `s`.
pub fn push_line(s: &mut String, l: &Line)
    ensures
        final(s)@ == old(s)@ + line_text(l@),
{
    match l {
        Line::Destination(id) => {
            s.append("DEST: ");
            proof { reveal_strlit("DEST: "); }
            push_decimal(s, *id);
        },
        Line::Label(t) => {
            s.append("LABEL: ");
            proof { reveal_strlit("LABEL: "); }
            s.append(t.as_str());
        },
        Line::PointerSource(id, t) => {
            s.append("SRC: ");
            proof { reveal_strlit("SRC: "); }
            push_decimal(s, *id);
            match t {
                Some(t) => {
                    s.append(" // ");
                    proof { reveal_strlit(" // "); }
                    s.append(t.as_str());
                },
                None => {},
            }
        },
        Line::RawWord(b) => {
            push_hex_byte(s, b[0]);
            push_hex_byte(s, b[1]);
            push_hex_byte(s, b[2]);
            push_hex_byte(s, b[3]);
        },
        Line::PlainString(t) => {
            s.append(t.as_str());
        },
    }
    assert(final(s)@ =~= old(s)@ + line_text(l@));
}

/// Prints the lines, one per line, separated by single line breaks.
pub fn render_lines(lines: &Vec<Line>) -> (r: String)
    ensures
        r@ == joined(lines@.map_values(|l: Line| l@)),
{
    let ghost ls = lines@.map_values(|l: Line| l@);
    let mut out = String::new();
    let mut i: usize = 0;
    proof {
        assert(ls.subrange(0, 0) =~= Seq::<LineView>::empty());
    }
    while i < lines.len()
        invariant
            i <= lines@.len(),
            ls == lines@.map_values(|l: Line| l@),
            out@ == joined(ls.subrange(0, i as int)),
        decreases lines@.len() - i,
    {
        if i > 0 {
            out.append("\n");
            proof { reveal_strlit("\n"); }
        }
        push_line(&mut out, &lines[i]);
        proof {
            let t = ls.subrange(0, i + 1);
            assert(t.drop_last() =~= ls.subrange(0, i as int));
            assert(t.last() == lines@[i as int]@);
            if i == 0 {
                assert(out@ =~= joined(t));
            }
        }
        i = i + 1;
    }
    proof {
        assert(ls.subrange(0, i as int) =~= ls);
    }
    out
}

/// A destination found among the first `n` words is the pointer of one of them.
pub proof fn lemma_destination_has_source(ws: Seq<WordInfo>, n: int, x: usize)
    requires
        destinations(ws, n).contains(x),
    ensures
        exists|i: int| 0 <= i < n && ws[i].pointer == Some(x),
    decreases n,
{
    if n > 0 {
        let d = destinations(ws, n - 1);
        if d.contains(x) {
            lemma_destination_has_source(ws, n - 1, x);
            let i = choose|i: int| 0 <= i < n - 1 && ws[i].pointer == Some(x);
            assert(0 <= i < n && ws[i].pointer == Some(x));
        } else {
            assert(ws[n - 1].pointer == Some(x));
        }
    }
}

/// Destination ids are dense: the destinations are distinct, every pointer
/// of the archive resolves to one of them (so its id lies in `0..n`), and
/// each of them is the target of at least one pointer of the archive.
pub proof fn lemma_destination_ids_dense(ws: Seq<WordInfo>)
    ensures
        all_destinations(ws).no_duplicates(),
        forall|i: int| 0 <= i < ws.len() && ws[i].pointer is Some ==>
            0 <= #[trigger] all_destinations(ws).index_of(ws[i].pointer.unwrap())
                < all_destinations(ws).len(),
        forall|k: int| 0 <= k < all_destinations(ws).len() ==>
            exists|i: int| 0 <= i < ws.len() && ws[i].pointer == Some(#[trigger] all_destinations(ws)[k]),
{
    let d = all_destinations(ws);
    lemma_destinations_distinct(ws, ws.len() as int);
    assert forall|i: int| 0 <= i < ws.len() && ws[i].pointer is Some implies
        0 <= #[trigger] d.index_of(ws[i].pointer.unwrap()) < d.len() by {
        lemma_pointer_has_destination(ws, ws.len() as int, i);
    }
    assert forall|k: int| 0 <= k < d.len() implies
        exists|i: int| 0 <= i < ws.len() && ws[i].pointer == Some(#[trigger] d[k]) by {
        assert(d.contains(d[k]));
        lemma_destination_has_source(ws, ws.len() as int, d[k]);
    }
}

/// Ids follow discovery order: when the first pointer to `p` stands before
/// the first pointer to `q`, `p` gets the smaller id, whatever the two
/// destination offsets are.
pub proof fn lemma_ids_follow_discovery(ws: Seq<WordInfo>, i: int, j: int)
    requires
        0 <= i < j < ws.len(),
        ws[i].pointer is Some,
        ws[j].pointer is Some,
        forall|k: int| 0 <= k < i ==> ws[k].pointer != ws[i].pointer,
        forall|k: int| 0 <= k < j ==> ws[k].pointer != ws[j].pointer,
    ensures
        all_destinations(ws).index_of(ws[i].pointer.unwrap())
            < all_destinations(ws).index_of(ws[j].pointer.unwrap()),
{
    let p = ws[i].pointer.unwrap();
    let q = ws[j].pointer.unwrap();
    let d = all_destinations(ws);
    let n = ws.len() as int;
    if destinations(ws, i).contains(p) {
        lemma_destination_has_source(ws, i, p);
    }
    if destinations(ws, j).contains(q) {
        lemma_destination_has_source(ws, j, q);
    }
    let a = destinations(ws, i).len() as int;
    let b = destinations(ws, j).len() as int;
    lemma_destinations_prefix(ws, i + 1, j);
    lemma_destinations_prefix(ws, i + 1, n);
    lemma_destinations_prefix(ws, j + 1, n);
    lemma_destinations_distinct(ws, n);
    assert(destinations(ws, i + 1)[a] == p);
    assert(destinations(ws, j + 1)[b] == q);
    assert(d[a] == p);
    assert(d[b] == q);
    lemma_index_of_distinct(d, a);
    lemma_index_of_distinct(d, b);
}

/// The indices of the words whose content the disassembly prints, from
/// index `i` on: a text entry hides the words that it spans.
pub open spec fn visited(ws: Seq<WordInfo>, i: int) -> Seq<int>
    decreases ws.len() - i,
{
    if i < 0 || i >= ws.len() {
        seq![]
    } else {
        seq![i] + visited(ws, next_index(ws, i))
    }
}

/// The number of destination and label lines of the visited words from `i` on.
pub open spec fn header_count(ws: Seq<WordInfo>, i: int) -> nat
    decreases ws.len() - i,
{
    if i < 0 || i >= ws.len() {
        0
    } else {
        header_lines(ws, i).len() + header_count(ws, next_index(ws, i))
    }
}

/// Line count conservation: the disassembly has one content line per
/// visited word, plus the destination and label lines, which come in
/// addition to the content lines and replace none.
pub proof fn lemma_line_count(ws: Seq<WordInfo>, i: int)
    ensures
        lines_from(ws, i).len() == visited(ws, i).len() + header_count(ws, i),
    decreases ws.len() - i,
{
    if 0 <= i < ws.len() {
        lemma_line_count(ws, next_index(ws, i));
    }
}

/// Whether `c` is a printable ASCII character.
pub open spec fn is_printable(c: u8) -> bool {
    0x20 <= c <= 0x7e
}

/// Whether `b` starts with `n > 0` printable bytes followed by a zero byte.
pub open spec fn is_c_string_len(b: Seq<u8>, n: int) -> bool {
    0 < n < b.len() && b[n] == 0 && forall|k: int| 0 <= k < n ==> is_printable(b[k])
}

/// The printable string that starts `b` and ends at a zero byte, if any.
pub open spec fn c_string_at(b: Seq<u8>) -> Option<Seq<u8>> {
    if exists|n: int| is_c_string_len(b, n) {
        Some(b.take(choose|n: int| is_c_string_len(b, n)))
    } else {
        None
    }
}

/// Reads the printable, zero-terminated string that starts `b`, if any.
/// The archive reader has no method for this, so it is read from the
/// archive's bytes here.
pub fn read_c_string(b: &[u8]) -> (r: Option<Vec<u8>>)
    ensures
        match r {
            Some(v) => c_string_at(b@) == Some(v@),
            None => c_string_at(b@) is None,
        },
{
    let mut k: usize = 0;
    while k < b.len() && 0x20 <= b[k] && b[k] <= 0x7e
        invariant
            k <= b@.len(),
            forall|j: int| 0 <= j < k ==> is_printable(b@[j]),
        decreases b@.len() - k,
    {
        k = k + 1;
    }
    if k > 0 && k < b.len() && b[k] == 0 {
        let mut v: Vec<u8> = Vec::new();
        let mut j: usize = 0;
        while j < k
            invariant
                j <= k,
                k < b@.len(),
                v@ == b@.take(j as int),
            decreases k - j,
        {
            v.push(b[j]);
            proof { assert(v@ =~= b@.take(j + 1)); }
            j = j + 1;
        }
        proof {
            assert(is_c_string_len(b@, k as int));
            let n = choose|n: int| is_c_string_len(b@, n);
            if n < k {
                assert(is_printable(b@[n]));
            } else if n > k {
                assert(is_printable(b@[k as int]));
            }
        }
        Some(v)
    } else {
        proof {
            if exists|n: int| is_c_string_len(b@, n) {
                let n = choose|n: int| is_c_string_len(b@, n);
                if n > k {
                    assert(is_printable(b@[k as int]));
                }
            }
        }
        None
    }
}

/// Why an archive could not be disassembled.
#[derive(Debug)]
pub enum DisassemblyError {
    /// The archive reader reported an error.
    Archive(mila::ArchiveError),
    /// The archive's data is not a whole number of 4-byte words.
    UnalignedSize(usize),
    /// The image's header sizes overflow 32 bits.
    HeaderOverflow,
}

/// The characters of ASCII bytes.
pub open spec fn ascii_chars(b: Seq<u8>) -> Seq<char> {
    b.map_values(|x: u8| x as char)
}

/// The inline string at the start of `b`, as characters.
pub open spec fn inline_of(b: Seq<u8>) -> Option<Seq<char>> {
    match c_string_at(b) {
        Some(v) => Some(ascii_chars(v)),
        None => None,
    }
}

/// Whether `w` is what the archive reader gives for the word at index `i`
/// of an archive with these data bytes, pointers, labels and text entries.
pub open spec fn is_word_of(
    data: Seq<u8>,
    pointers: Map<usize, usize>,
    labels: Map<usize, Seq<Seq<char>>>,
    texts: Map<usize, Seq<char>>,
    i: int,
    w: WordInfo,
) -> bool {
    let off = (4 * i) as usize;
    &&& w.pointer == lookup(pointers, off)
    &&& w.labels@.map_values(|l: String| l@) == (if labels.contains_key(off) { labels[off] } else { seq![] })
    &&& opt_view(w.text) == lookup(texts, off)
    &&& w.text_words == 1
    &&& w.bytes@ == data.subrange(4 * i, 4 * i + 4)
    &&& opt_view(w.inline_text) == (if w.pointer is Some { inline_of(data.skip(4 * i)) } else { None })
}

/// Whether `ws` are the words of an archive with these contents, one per
/// 4 bytes of data.
pub open spec fn is_words_of(
    data: Seq<u8>,
    pointers: Map<usize, usize>,
    labels: Map<usize, Seq<Seq<char>>>,
    texts: Map<usize, Seq<char>>,
    ws: Seq<WordInfo>,
) -> bool {
    &&& ws.len() * 4 == data.len()
    &&& forall|i: int| 0 <= i < ws.len() ==> #[trigger] is_word_of(data, pointers, labels, texts, i, ws[i])
}

/// Whether `t` is the disassembly text of an archive with these contents.
pub open spec fn is_disassembly_of(
    data: Seq<u8>,
    pointers: Map<usize, usize>,
    labels: Map<usize, Seq<Seq<char>>>,
    texts: Map<usize, Seq<char>>,
    t: Seq<char>,
) -> bool {
    exists|ws: Seq<WordInfo>| #[trigger] is_words_of(data, pointers, labels, texts, ws) && t == joined(disassembly(ws))
}

/// Whether `t` is the disassembly text of the parsed archive `a`.
pub open spec fn is_archive_disassembly(a: mila::BinArchive, t: Seq<char>) -> bool {
    is_disassembly_of(archive_data(a), archive_pointers(a), archive_labels(a), archive_texts(a), t)
}

/// Whether `t` is the disassembly text of the archive that the image
/// `image` holds.
pub open spec fn is_image_disassembly(image: Seq<u8>, t: Seq<char>) -> bool {
    is_disassembly_of(image_data(image), image_pointers(image), image_labels(image), image_texts(image), t)
}

/// Disassembles the words and prints the lines.
pub fn disassembly_text(words: &Vec<WordInfo>) -> (r: String)
    requires
        words@.len() * 4 <= usize::MAX,
    ensures
        r@ == joined(disassembly(words@)),
{
    let lines = disassemble(words);
    render_lines(&lines)
}

/// Reads the words of the archive and disassembles them. This fails
/// exactly when the archive's data is not a whole number of words.
pub fn unpack_bin_archive(archive: &mila::BinArchive) -> (r: Result<String, DisassemblyError>)
    ensures
        r is Err <==> archive_data(*archive).len() % 4 != 0,
        r is Err ==> r matches Err(DisassemblyError::UnalignedSize(_)),
        r matches Err(DisassemblyError::UnalignedSize(n)) ==> n == archive_data(*archive).len(),
        r is Ok ==> is_archive_disassembly(*archive, r->Ok_0@),
{
    let ghost data = archive_data(*archive);
    let ghost pointers = archive_pointers(*archive);
    let ghost labels_map = archive_labels(*archive);
    let ghost texts = archive_texts(*archive);
    let size = archive_size(archive);
    if size % 4 != 0 {
        return Err(DisassemblyError::UnalignedSize(size));
    }
    let mut words: Vec<WordInfo> = Vec::new();
    let mut addr: usize = 0;
    while addr < size
        invariant
            size == data.len(),
            data == archive_data(*archive),
            pointers == archive_pointers(*archive),
            labels_map == archive_labels(*archive),
            texts == archive_texts(*archive),
            size % 4 == 0,
            addr % 4 == 0,
            addr <= size,
            words@.len() * 4 == addr,
            forall|k: int| 0 <= k < words@.len() ==>
                #[trigger] is_word_of(data, pointers, labels_map, texts, k, words@[k]),
        decreases size - addr,
    {
        proof {
            assert(word_in(*archive, addr));
        }
        let pointer = match read_pointer(archive, addr) {
            Ok(p) => p,
            Err(e) => return Err(DisassemblyError::Archive(e)),
        };
        let labels = match read_labels(archive, addr) {
            Ok(Some(l)) => l,
            Ok(None) => Vec::new(),
            Err(e) => return Err(DisassemblyError::Archive(e)),
        };
        let text = match read_string(archive, addr) {
            Ok(t) => t,
            Err(e) => return Err(DisassemblyError::Archive(e)),
        };
        let word = match read_bytes(archive, addr, 4) {
            Ok(b) => b,
            Err(e) => return Err(DisassemblyError::Archive(e)),
        };
        let inline_text = if pointer.is_some() {
            let rest = match read_bytes(archive, addr, size - addr) {
                Ok(b) => b,
                Err(e) => return Err(DisassemblyError::Archive(e)),
            };
            proof {
                assert(rest@ =~= data.skip(addr as int));
            }
            match read_c_string(rest.as_slice()) {
                Some(v) => {
                    proof {
                        let n = choose|n: int| is_c_string_len(rest@, n);
                        assert forall|k: int| 0 <= k < v@.len() implies v@[k] < 0x80 by {
                            assert(is_printable(rest@[k]));
                        }
                    }
                    Some(ascii_string(v.as_slice()))
                },
                None => None,
            }
        } else {
            None
        };
        let bytes: [u8; 4] = [word[0], word[1], word[2], word[3]];
        let w = WordInfo { pointer, labels, inline_text, text, text_words: 1, bytes };
        proof {
            let i = words@.len() as int;
            assert(w.bytes@ =~= data.subrange(4 * i, 4 * i + 4));
            assert(w.labels@.map_values(|l: String| l@) =~=
                (if labels_map.contains_key(addr) { labels_map[addr] } else { seq![] }));
            assert(is_word_of(data, pointers, labels_map, texts, i, w));
        }
        words.push(w);
        addr = addr + 4;
    }
    let r: Result<String, DisassemblyError> = Ok(disassembly_text(&words));
    proof {
        assert(is_words_of(data, pointers, labels_map, texts, words@));
    }
    r
}

/// Reads an archive image and disassembles it. Besides a failure to read the
/// image, it fails exactly on header sizes that overflow 32 bits, or on data
/// that is not a whole number of words.
pub fn extract_bin_from_bytes(raw: &[u8]) -> (r: Result<String, DisassemblyError>)
    ensures
        (r matches Err(DisassemblyError::HeaderOverflow)) <==> !header_sizes_fit(raw@),
        r matches Err(DisassemblyError::UnalignedSize(n)) ==> n == le_u32(raw@, 4) && n % 4 != 0,
        header_sizes_fit(raw@) && raw@.len() >= 0x20 && le_u32(raw@, 4) % 4 != 0 ==> r is Err,
        header_sizes_fit(raw@) && image_parses(raw@) && le_u32(raw@, 4) % 4 == 0 ==> r is Ok,
        r matches Err(DisassemblyError::Archive(_)) ==> header_sizes_fit(raw@) && !image_parses(raw@),
        r is Ok ==> is_image_disassembly(raw@, r->Ok_0@),
{
    if !header_fits(raw) {
        return Err(DisassemblyError::HeaderOverflow);
    }
    match parse_archive(raw) {
        Ok(archive) => {
            proof {
                assert(archive_data(archive).len() == le_u32(raw@, 4));
            }
            unpack_bin_archive(&archive)
        },
        Err(e) => Err(DisassemblyError::Archive(e)),
    }
}

/// Whether two word sequences hold the same content, field by field.
pub open spec fn same_words(a: Seq<WordInfo>, b: Seq<WordInfo>) -> bool {
    &&& a.len() == b.len()
    &&& forall|i: int| 0 <= i < a.len() ==> {
        &&& (#[trigger] a[i]).pointer == b[i].pointer
        &&& a[i].labels@.map_values(|l: String| l@) == b[i].labels@.map_values(|l: String| l@)
        &&& opt_view(a[i].inline_text) == opt_view(b[i].inline_text)
        &&& opt_view(a[i].text) == opt_view(b[i].text)
        &&& a[i].text_words == b[i].text_words
        &&& a[i].bytes@ == b[i].bytes@
    }
}

proof fn lemma_same_destinations(a: Seq<WordInfo>, b: Seq<WordInfo>, n: int)
    requires
        same_words(a, b),
        n <= a.len(),
    ensures
        destinations(a, n) == destinations(b, n),
    decreases n,
{
    if n > 0 {
        lemma_same_destinations(a, b, n - 1);
        assert(a[n - 1].pointer == b[n - 1].pointer);
    }
}

proof fn lemma_same_lines_from(a: Seq<WordInfo>, b: Seq<WordInfo>, i: int)
    requires
        same_words(a, b),
        all_destinations(a) == all_destinations(b),
    ensures
        lines_from(a, i) == lines_from(b, i),
    decreases a.len() - i,
{
    if 0 <= i < a.len() {
        let wa = a[i];
        let wb = b[i];
        assert(wa.pointer == wb.pointer);
        let la = wa.labels@.map_values(|l: String| l@);
        let lb = wb.labels@.map_values(|l: String| l@);
        assert(la == lb);
        assert(la.len() == wa.labels@.len());
        assert(lb.len() == wb.labels@.len());
        assert(wa.labels@.map_values(|l: String| LineView::Label(l@))
            =~= wb.labels@.map_values(|l: String| LineView::Label(l@))) by {
            assert forall|k: int| 0 <= k < wa.labels@.len() implies
                wa.labels@[k]@ == wb.labels@[k]@ by {
                assert(la[k] == lb[k]);
            }
        }
        assert(header_lines(a, i) == header_lines(b, i));
        assert(kept_inline(wa.inline_text) == kept_inline(wb.inline_text));
        assert(content_line(a, i) == content_line(b, i));
        assert(next_index(a, i) == next_index(b, i));
        lemma_same_lines_from(a, b, next_index(a, i));
    }
}

/// Determinism: the disassembly depends on the words' content alone, so
/// two archives that read the same give the same lines.
pub proof fn lemma_disassembly_deterministic(a: Seq<WordInfo>, b: Seq<WordInfo>)
    requires
        same_words(a, b),
    ensures
        disassembly(a) == disassembly(b),
        joined(disassembly(a)) == joined(disassembly(b)),
{
    lemma_same_destinations(a, b, a.len() as int);
    lemma_same_lines_from(a, b, 0);
}

/// Determinism at the archive level: an archive's contents fix its
/// disassembly text, so every read of the same archive prints the same text.
pub proof fn lemma_archive_disassembly_unique(
    data: Seq<u8>,
    pointers: Map<usize, usize>,
    labels: Map<usize, Seq<Seq<char>>>,
    texts: Map<usize, Seq<char>>,
    t1: Seq<char>,
    t2: Seq<char>,
)
    requires
        is_disassembly_of(data, pointers, labels, texts, t1),
        is_disassembly_of(data, pointers, labels, texts, t2),
    ensures
        t1 == t2,
{
    let a = choose|ws: Seq<WordInfo>| #[trigger] is_words_of(data, pointers, labels, texts, ws) && t1 == joined(disassembly(ws));
    let b = choose|ws: Seq<WordInfo>| #[trigger] is_words_of(data, pointers, labels, texts, ws) && t2 == joined(disassembly(ws));
    assert forall|i: int| 0 <= i < a.len() implies {
        &&& (#[trigger] a[i]).pointer == b[i].pointer
        &&& a[i].labels@.map_values(|l: String| l@) == b[i].labels@.map_values(|l: String| l@)
        &&& opt_view(a[i].inline_text) == opt_view(b[i].inline_text)
        &&& opt_view(a[i].text) == opt_view(b[i].text)
        &&& a[i].text_words == b[i].text_words
        &&& a[i].bytes@ == b[i].bytes@
    } by {
        assert(is_word_of(data, pointers, labels, texts, i, a[i]));
        assert(is_word_of(data, pointers, labels, texts, i, b[i]));
    }
    assert(same_words(a, b));
    lemma_disassembly_deterministic(a, b);
}

/// Whether a destination or pointer-source line carries an id below `n`.
pub open spec fn id_below(l: LineView, n: nat) -> bool {
    match l {
        LineView::Destination(id) => id < n,
        LineView::PointerSource(id, _) => id < n,
        _ => true,
    }
}

proof fn lemma_lines_from_ids_below(ws: Seq<WordInfo>, i: int)
    ensures
        forall|k: int| 0 <= k < lines_from(ws, i).len() ==>
            id_below(#[trigger] lines_from(ws, i)[k], all_destinations(ws).len()),
    decreases ws.len() - i,
{
    if 0 <= i < ws.len() {
        let d = all_destinations(ws);
        let n = d.len();
        lemma_lines_from_ids_below(ws, next_index(ws, i));
        lemma_destinations_distinct(ws, ws.len() as int);
        let h = header_lines(ws, i);
        let c = content_line(ws, i);
        let rest = lines_from(ws, next_index(ws, i));
        let off = (4 * i) as usize;
        assert forall|k: int| 0 <= k < h.len() implies id_below(#[trigger] h[k], n) by {
            if d.contains(off) && k == 0 {
                let j = choose|j: int| 0 <= j < d.len() && d[j] == off;
                lemma_index_of_distinct(d, j);
            }
        }
        if ws[i].pointer is Some {
            lemma_pointer_has_destination(ws, ws.len() as int, i);
            let p = ws[i].pointer.unwrap();
            let j = choose|j: int| 0 <= j < d.len() && d[j] == p;
            lemma_index_of_distinct(d, j);
        }
        assert(id_below(c, n));
        let all = h.push(c) + rest;
        assert(lines_from(ws, i) == all);
        assert forall|k: int| 0 <= k < all.len() implies id_below(#[trigger] all[k], n) by {
            if k < h.len() {
                assert(all[k] == h[k]);
            } else if k == h.len() {
                assert(all[k] == c);
            } else {
                assert(all[k] == rest[k - h.len() - 1]);
            }
        }
    }
}

/// Printed ids stay within the dense range: every destination line and
/// every pointer-source line of a disassembly carries an id below the
/// number of destinations.
pub proof fn lemma_printed_ids_dense(ws: Seq<WordInfo>)
    ensures
        forall|k: int| 0 <= k < disassembly(ws).len() ==>
            id_below(#[trigger] disassembly(ws)[k], all_destinations(ws).len()),
{
    lemma_lines_from_ids_below(ws, 0);
}

} // verus!
