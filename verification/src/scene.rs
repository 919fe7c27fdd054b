//! Scene-description text.
//!
//! A scene file is plain text. Lines that are empty or start with `#`
//! are ignored; the remaining lines are taken five at a time, each
//! group describing one object: position (`x;y;z`), rotation
//! (`ax;ay;az`), points (`x;y;z` triples separated by `|`), edges
//! (`i;j` index pairs separated by `|`), and color (`r;g;b;a`,
//! integers 0 to 255).
//!
//! The parser here checks the structure of every field and parses the
//! integer fields; the coordinate numbers themselves are handed back as
//! raw text, since turning them into floating-point values is the
//! caller's (unverified) business. An edge index at or past the number
//! of points of its object is a load-time error.

use vstd::prelude::*;

verus! {

/// ASCII whitespace, the characters trimmed off number text.
pub open spec fn is_space(b: u8) -> bool {
    b == 32 || 9 <= b && b <= 13
}

/// ASCII decimal digit.
pub open spec fn is_digit(b: u8) -> bool {
    48 <= b && b <= 57
}

/// `s` split at every occurrence of `sep`: always one token more than
/// there are separators, empty tokens kept.
pub open spec fn split(s: Seq<u8>, sep: u8) -> Seq<Seq<u8>>
    decreases s.len(),
{
    if s.len() == 0 {
        seq![Seq::<u8>::empty()]
    } else {
        let rest = split(s.drop_last(), sep);
        if s.last() == sep {
            rest.push(Seq::empty())
        } else {
            rest.update(rest.len() - 1, rest.last().push(s.last()))
        }
    }
}

/// Leading whitespace removed.
pub open spec fn trim_front(s: Seq<u8>) -> Seq<u8>
    decreases s.len(),
{
    if s.len() > 0 && is_space(s[0]) {
        trim_front(s.skip(1))
    } else {
        s
    }
}

/// Trailing whitespace removed.
pub open spec fn trim_back(s: Seq<u8>) -> Seq<u8>
    decreases s.len(),
{
    if s.len() > 0 && is_space(s.last()) {
        trim_back(s.drop_last())
    } else {
        s
    }
}

/// Whitespace removed from both ends.
pub open spec fn trimmed(s: Seq<u8>) -> Seq<u8> {
    trim_back(trim_front(s))
}

/// Every byte is a decimal digit.
pub open spec fn all_digits(s: Seq<u8>) -> bool {
    forall|i: int| 0 <= i < s.len() ==> is_digit(#[trigger] s[i])
}

/// The digit part of unsigned-integer text: an optional leading `+`
/// dropped.
pub open spec fn int_text_body(s: Seq<u8>) -> Seq<u8> {
    if s.len() > 0 && s[0] == 43 {
        s.skip(1)
    } else {
        s
    }
}

/// Exactly the strings that parse as an unsigned integer: an optional
/// `+`, then at least one digit (the value may still be out of range).
pub open spec fn is_int_text(s: Seq<u8>) -> bool {
    let b = int_text_body(s);
    b.len() > 0 && all_digits(b)
}

/// Numeric value of a digit string.
pub open spec fn digits_val(s: Seq<u8>) -> nat
    decreases s.len(),
{
    if s.len() == 0 {
        0
    } else {
        digits_val(s.drop_last()) * 10 + (s.last() - 48) as nat
    }
}

/// Reading more digits never shrinks the value.
pub proof fn lemma_digits_val_mono(s: Seq<u8>, k: int)
    requires
        0 <= k <= s.len(),
    ensures
        digits_val(s) >= digits_val(s.take(k)),
    decreases s.len() - k,
{
    if k < s.len() {
        assert(s.take(k + 1).drop_last() =~= s.take(k));
        assert(digits_val(s.take(k + 1)) >= digits_val(s.take(k)));
        lemma_digits_val_mono(s, k + 1);
    } else {
        assert(s.take(k) =~= s);
    }
}

/// The views of a list of owned byte strings.
pub open spec fn token_views(ts: Seq<Vec<u8>>) -> Seq<Seq<u8>> {
    Seq::new(ts.len(), |i: int| ts[i]@)
}

/// Split `s` at every occurrence of `sep`.
pub fn split_bytes(s: &[u8], sep: u8) -> (r: Vec<Vec<u8>>)
    ensures
        token_views(r@) == split(s@, sep),
        r@.len() >= 1,
{
    let mut r: Vec<Vec<u8>> = Vec::new();
    r.push(Vec::new());
    proof {
        assert(s@.take(0) =~= Seq::<u8>::empty());
        assert(token_views(r@) =~= split(s@.take(0), sep));
    }
    let mut i: usize = 0;
    while i < s.len()
        invariant
            i <= s@.len(),
            r@.len() >= 1,
            token_views(r@) == split(s@.take(i as int), sep),
        decreases s@.len() - i,
    {
        proof {
            assert(s@.take(i + 1).drop_last() =~= s@.take(i as int));
            assert(s@.take(i + 1).last() == s@[i as int]);
        }
        if s[i] == sep {
            r.push(Vec::new());
            proof {
                assert(token_views(r@) =~= split(s@.take(i + 1), sep));
            }
        } else {
            let mut t = r.pop().unwrap();
            t.push(s[i]);
            r.push(t);
            proof {
                assert(token_views(r@) =~= split(s@.take(i + 1), sep));
            }
        }
        i = i + 1;
    }
    proof {
        assert(s@.take(s@.len() as int) =~= s@);
    }
    r
}

/// Byte-for-byte copy of a line or token.
pub fn copy_bytes(s: &Vec<u8>) -> (r: Vec<u8>)
    ensures
        r@ == s@,
{
    vstd::slice::slice_to_vec(s.as_slice())
}

/// Copy of `s` with whitespace removed from both ends.
pub fn trim_bytes(s: &[u8]) -> (r: Vec<u8>)
    ensures
        r@ == trimmed(s@),
{
    let mut a: usize = 0;
    proof {
        assert(s@.skip(0) =~= s@);
    }
    while a < s.len() && (s[a] == 32 || 9 <= s[a] && s[a] <= 13)
        invariant
            a <= s@.len(),
            trim_front(s@) == trim_front(s@.skip(a as int)),
        decreases s@.len() - a,
    {
        proof {
            assert(s@.skip(a as int)[0] == s@[a as int]);
            assert(s@.skip(a as int).skip(1) =~= s@.skip(a + 1));
        }
        a = a + 1;
    }
    proof {
        if a < s@.len() {
            assert(s@.skip(a as int)[0] == s@[a as int]);
        }
        assert(trim_front(s@) == s@.skip(a as int));
        assert(s@.skip(a as int) =~= s@.subrange(a as int, s@.len() as int));
    }
    let mut b: usize = s.len();
    while b > a && (s[b - 1] == 32 || 9 <= s[b - 1] && s[b - 1] <= 13)
        invariant
            a <= b <= s@.len(),
            trim_back(trim_front(s@)) == trim_back(s@.subrange(a as int, b as int)),
        decreases b,
    {
        proof {
            assert(s@.subrange(a as int, b as int).last() == s@[b - 1]);
            assert(s@.subrange(a as int, b as int).drop_last() =~= s@.subrange(
                a as int,
                b - 1,
            ));
        }
        b = b - 1;
    }
    proof {
        if b > a {
            assert(s@.subrange(a as int, b as int).last() == s@[b - 1]);
        }
        assert(trim_back(s@.subrange(a as int, b as int)) == s@.subrange(a as int, b as int));
    }
    let piece = vstd::slice::slice_subrange(s, a, b);
    vstd::slice::slice_to_vec(piece)
}

/// Parse unsigned-integer text, as `usize` text is read: an optional
/// `+`, then decimal digits, rejected when the value does not fit.
pub fn parse_usize(s: &[u8]) -> (r: Option<usize>)
    ensures
        match r {
            Some(v) => is_int_text(s@) && v as nat == digits_val(int_text_body(s@)),
            None => !is_int_text(s@) || digits_val(int_text_body(s@)) > usize::MAX,
        },
{
    let mut i: usize = 0;
    if s.len() > 0 && s[0] == 43 {
        i = 1;
    }
    let ghost start = i as int;
    let ghost body = int_text_body(s@);
    proof {
        assert(body =~= s@.skip(start));
    }
    if i == s.len() {
        return None;
    }
    let mut acc: usize = 0;
    while i < s.len()
        invariant
            0 <= start <= i as int <= s@.len(),
            start < s@.len(),
            body == int_text_body(s@),
            body == s@.skip(start),
            body.len() == s@.len() - start,
            forall|k: int| 0 <= k < i - start ==> is_digit(#[trigger] body[k]),
            acc as nat == digits_val(body.take(i - start)),
        decreases s@.len() - i,
    {
        let c = s[i];
        proof {
            assert(s@.skip(start)[i - start] == s@[i as int]);
            assert(body[i - start] == s@[i as int]);
        }
        if !(48 <= c && c <= 57) {
            return None;
        }
        let d = (c - 48) as usize;
        proof {
            assert(body.take(i - start + 1).drop_last() =~= body.take(i - start));
            assert(body.take(i - start + 1).last() == body[i - start]);
        }
        let step = match acc.checked_mul(10) {
            Some(m) => m.checked_add(d),
            None => None,
        };
        match step {
            Some(v) => {
                acc = v;
            },
            None => {
                proof {
                    lemma_digits_val_mono(body, i - start + 1);
                }
                return None;
            },
        }
        i = i + 1;
    }
    proof {
        assert(body.take(body.len() as int) =~= body);
    }
    Some(acc)
}

/// Parse unsigned-integer text into a byte, as `u8` text is read.
pub fn parse_u8(s: &[u8]) -> (r: Option<u8>)
    ensures
        match r {
            Some(v) => is_int_text(s@) && v as nat == digits_val(int_text_body(s@)),
            None => !is_int_text(s@) || digits_val(int_text_body(s@)) > 255,
        },
{
    match parse_usize(s) {
        Some(v) => {
            if v <= 255 {
                Some(v as u8)
            } else {
                None
            }
        },
        None => None,
    }
}

/// One coordinate triple as raw number text, in file order.
#[derive(Debug)]
pub struct RawTriple {
    pub x: Vec<u8>,
    pub y: Vec<u8>,
    pub z: Vec<u8>,
}

/// Mathematical image of a raw coordinate triple.
pub ghost struct TripleView {
    pub x: Seq<u8>,
    pub y: Seq<u8>,
    pub z: Seq<u8>,
}

impl View for RawTriple {
    type V = TripleView;

    open spec fn view(&self) -> TripleView {
        TripleView { x: self.x@, y: self.y@, z: self.z@ }
    }
}

/// The views of a list of raw triples.
pub open spec fn triple_views(ts: Seq<RawTriple>) -> Seq<TripleView> {
    Seq::new(ts.len(), |i: int| ts[i]@)
}

/// RGBA color, one byte per channel.
#[derive(Clone, Copy, Debug, PartialEq, Eq, Structural)]
pub struct Rgba {
    pub r: u8,
    pub g: u8,
    pub b: u8,
    pub a: u8,
}

/// Which of an object's five description lines is malformed.
#[derive(Clone, Copy, Debug, PartialEq, Eq, Structural)]
pub enum SceneField {
    Position,
    Rotation,
    Points,
    Edges,
    Color,
}

/// A load-time scene error: which field of which object failed, and the
/// raw line it stood on.
#[derive(Debug)]
pub struct SceneError {
    pub field: SceneField,
    pub object: usize,
    pub line: Vec<u8>,
}

/// One parsed object description. The coordinate numbers stay raw
/// text; edge indices and color channels are parsed and checked.
#[derive(Debug)]
pub struct SceneRecord {
    pub position: RawTriple,
    pub rotation: RawTriple,
    pub points: Vec<RawTriple>,
    pub edges: Vec<(usize, usize)>,
    pub color: Rgba,
}

/// A line that carries data: not empty and not a `#` comment.
pub open spec fn is_kept(l: Seq<u8>) -> bool {
    l.len() > 0 && l[0] != 35
}

/// The data lines of a line list, in order.
pub open spec fn kept_of(ls: Seq<Seq<u8>>) -> Seq<Seq<u8>>
    decreases ls.len(),
{
    if ls.len() == 0 {
        Seq::empty()
    } else if is_kept(ls.last()) {
        kept_of(ls.drop_last()).push(ls.last())
    } else {
        kept_of(ls.drop_last())
    }
}

/// The data lines of a whole file.
pub open spec fn kept_lines(content: Seq<u8>) -> Seq<Seq<u8>> {
    kept_of(split(content, 10))
}

/// How many objects the file describes: five data lines each, any
/// short trailing group ignored.
pub open spec fn object_count(content: Seq<u8>) -> nat {
    kept_lines(content).len() / 5
}

/// The numeric value of one integer token, whitespace trimmed.
pub open spec fn int_val(t: Seq<u8>) -> nat {
    digits_val(int_text_body(trimmed(t)))
}

/// An integer token, whitespace trimmed.
pub open spec fn int_tok_ok(t: Seq<u8>) -> bool {
    is_int_text(trimmed(t))
}

/// A coordinate line holds at least three `;`-separated fields.
pub open spec fn triple_ok(line: Seq<u8>) -> bool {
    split(line, 59).len() >= 3
}

/// The first three raw fields of a coordinate line.
pub open spec fn triple_of(line: Seq<u8>) -> TripleView {
    TripleView { x: split(line, 59)[0], y: split(line, 59)[1], z: split(line, 59)[2] }
}

/// Every `|`-separated group of a points line is a coordinate triple.
pub open spec fn points_ok(line: Seq<u8>) -> bool {
    forall|i: int|
        0 <= i < split(line, 124).len() ==> triple_ok(#[trigger] split(line, 124)[i])
}

/// The raw triples of a points line.
pub open spec fn points_of(line: Seq<u8>) -> Seq<TripleView> {
    split(line, 124).map_values(|g: Seq<u8>| triple_of(g))
}

/// How many points a points line describes.
pub open spec fn point_count(line: Seq<u8>) -> nat {
    split(line, 124).len()
}

/// One edge group: two `;`-separated integer indices, both below the
/// object's point count.
pub open spec fn edge_ok(g: Seq<u8>, npoints: nat) -> bool {
    let toks = split(g, 59);
    &&& toks.len() >= 2
    &&& int_tok_ok(toks[0])
    &&& int_tok_ok(toks[1])
    &&& int_val(toks[0]) < npoints
    &&& int_val(toks[1]) < npoints
}

/// The index pair of one edge group.
pub open spec fn edge_of(g: Seq<u8>) -> (usize, usize) {
    let toks = split(g, 59);
    (int_val(toks[0]) as usize, int_val(toks[1]) as usize)
}

/// Every `|`-separated group of an edges line is a well-formed edge.
pub open spec fn edges_line_ok(line: Seq<u8>, npoints: nat) -> bool {
    forall|i: int|
        0 <= i < split(line, 124).len() ==> edge_ok(#[trigger] split(line, 124)[i], npoints)
}

/// The index pairs of an edges line.
pub open spec fn edges_of(line: Seq<u8>) -> Seq<(usize, usize)> {
    split(line, 124).map_values(|g: Seq<u8>| edge_of(g))
}

/// A color line: at least four `;`-separated integers, each at most
/// 255.
pub open spec fn color_ok(line: Seq<u8>) -> bool {
    let toks = split(line, 59);
    &&& toks.len() >= 4
    &&& forall|i: int|
        0 <= i < 4 ==> int_tok_ok(#[trigger] toks[i]) && int_val(toks[i]) <= 255
}

/// The color of a color line.
pub open spec fn color_of(line: Seq<u8>) -> Rgba {
    let toks = split(line, 59);
    Rgba {
        r: int_val(toks[0]) as u8,
        g: int_val(toks[1]) as u8,
        b: int_val(toks[2]) as u8,
        a: int_val(toks[3]) as u8,
    }
}

/// The first malformed field of object `i` of the data lines `ls`,
/// fields checked in file order; `None` when the object is well-formed.
pub open spec fn first_bad_field(ls: Seq<Seq<u8>>, i: int) -> Option<SceneField> {
    if !triple_ok(ls[5 * i]) {
        Some(SceneField::Position)
    } else if !triple_ok(ls[5 * i + 1]) {
        Some(SceneField::Rotation)
    } else if !points_ok(ls[5 * i + 2]) {
        Some(SceneField::Points)
    } else if !edges_line_ok(ls[5 * i + 3], point_count(ls[5 * i + 2])) {
        Some(SceneField::Edges)
    } else if !color_ok(ls[5 * i + 4]) {
        Some(SceneField::Color)
    } else {
        None
    }
}

/// The data line a field of object `i` stands on.
pub open spec fn field_line(ls: Seq<Seq<u8>>, i: int, f: SceneField) -> Seq<u8> {
    match f {
        SceneField::Position => ls[5 * i],
        SceneField::Rotation => ls[5 * i + 1],
        SceneField::Points => ls[5 * i + 2],
        SceneField::Edges => ls[5 * i + 3],
        SceneField::Color => ls[5 * i + 4],
    }
}

/// The record of object `i` holds exactly what its five data lines say.
pub open spec fn record_matches(rec: SceneRecord, ls: Seq<Seq<u8>>, i: int) -> bool {
    &&& rec.position@ == triple_of(ls[5 * i])
    &&& rec.rotation@ == triple_of(ls[5 * i + 1])
    &&& triple_views(rec.points@) == points_of(ls[5 * i + 2])
    &&& rec.edges@ == edges_of(ls[5 * i + 3])
    &&& rec.color == color_of(ls[5 * i + 4])
}

/// The data lines of a scene file: empty lines and `#` comments
/// dropped, the rest kept in order.
pub fn data_lines(content: &[u8]) -> (r: Vec<Vec<u8>>)
    ensures
        token_views(r@) == kept_lines(content@),
{
    let lines = split_bytes(content, 10);
    let mut kept: Vec<Vec<u8>> = Vec::new();
    let mut i: usize = 0;
    proof {
        assert(split(content@, 10).take(0) =~= Seq::<Seq<u8>>::empty());
        assert(token_views(kept@) =~= kept_of(split(content@, 10).take(0)));
    }
    while i < lines.len()
        invariant
            i <= lines@.len(),
            token_views(lines@) == split(content@, 10),
            token_views(kept@) == kept_of(split(content@, 10).take(i as int)),
        decreases lines@.len() - i,
    {
        proof {
            assert(split(content@, 10).take(i + 1).drop_last() =~= split(content@, 10).take(
                i as int,
            ));
            assert(split(content@, 10).take(i + 1).last() == split(content@, 10)[i as int]);
            assert(lines@[i as int]@ == split(content@, 10)[i as int]);
        }
        if lines[i].len() > 0 && lines[i][0] != 35 {
            let l = copy_bytes(&lines[i]);
            kept.push(l);
            proof {
                assert(token_views(kept@) =~= kept_of(split(content@, 10).take(i + 1)));
            }
        } else {
            proof {
                assert(token_views(kept@) =~= kept_of(split(content@, 10).take(i + 1)));
            }
        }
        i = i + 1;
    }
    proof {
        assert(split(content@, 10).take(split(content@, 10).len() as int) =~= split(content@, 10));
        assert(token_views(kept@) == kept_lines(content@));
    }
    kept
}

/// Parse one coordinate line: at least three `;`-separated fields,
/// handed back raw.
fn parse_triple(line: &Vec<u8>) -> (r: Option<RawTriple>)
    ensures
        match r {
            Some(t) => triple_ok(line@) && t@ == triple_of(line@),
            None => !triple_ok(line@),
        },
{
    let toks = split_bytes(line.as_slice(), 59);
    if toks.len() < 3 {
        return None;
    }
    let x = copy_bytes(&toks[0]);
    let y = copy_bytes(&toks[1]);
    let z = copy_bytes(&toks[2]);
    Some(RawTriple { x, y, z })
}

/// Parse a points line: every `|`-separated group a coordinate triple.
fn parse_points(line: &Vec<u8>) -> (r: Option<Vec<RawTriple>>)
    ensures
        match r {
            Some(ps) => {
                &&& points_ok(line@)
                &&& ps@.len() == point_count(line@)
                &&& triple_views(ps@) == points_of(line@)
            },
            None => !points_ok(line@),
        },
{
    let groups = split_bytes(line.as_slice(), 124);
    let mut out: Vec<RawTriple> = Vec::new();
    let mut i: usize = 0;
    while i < groups.len()
        invariant
            i <= groups@.len(),
            token_views(groups@) == split(line@, 124),
            out@.len() == i,
            forall|j: int| 0 <= j < i ==> triple_ok(#[trigger] split(line@, 124)[j]),
            forall|j: int| 0 <= j < i ==> (#[trigger] out@[j])@ == triple_of(split(line@, 124)[j]),
        decreases groups@.len() - i,
    {
        match parse_triple(&groups[i]) {
            Some(t) => {
                out.push(t);
            },
            None => {
                proof {
                    assert(groups@[i as int]@ == split(line@, 124)[i as int]);
                    assert(!triple_ok(split(line@, 124)[i as int]));
                }
                return None;
            },
        }
        i = i + 1;
    }
    proof {
        assert(triple_views(out@) =~= points_of(line@));
    }
    Some(out)
}

/// Parse one edge group: two integer indices below `npoints`.
fn parse_edge(g: &Vec<u8>, npoints: usize) -> (r: Option<(usize, usize)>)
    ensures
        match r {
            Some(e) => edge_ok(g@, npoints as nat) && e == edge_of(g@),
            None => !edge_ok(g@, npoints as nat),
        },
{
    let toks = split_bytes(g.as_slice(), 59);
    if toks.len() < 2 {
        return None;
    }
    let t0 = trim_bytes(toks[0].as_slice());
    let a = match parse_usize(t0.as_slice()) {
        Some(v) => v,
        None => {
            return None;
        },
    };
    if a >= npoints {
        return None;
    }
    let t1 = trim_bytes(toks[1].as_slice());
    let b = match parse_usize(t1.as_slice()) {
        Some(v) => v,
        None => {
            return None;
        },
    };
    if b >= npoints {
        return None;
    }
    Some((a, b))
}

/// Parse an edges line against the object's point count.
fn parse_edges(line: &Vec<u8>, npoints: usize) -> (r: Option<Vec<(usize, usize)>>)
    ensures
        match r {
            Some(es) => {
                &&& edges_line_ok(line@, npoints as nat)
                &&& es@ == edges_of(line@)
            },
            None => !edges_line_ok(line@, npoints as nat),
        },
{
    let groups = split_bytes(line.as_slice(), 124);
    let mut out: Vec<(usize, usize)> = Vec::new();
    let mut i: usize = 0;
    while i < groups.len()
        invariant
            i <= groups@.len(),
            token_views(groups@) == split(line@, 124),
            out@.len() == i,
            forall|j: int| 0 <= j < i ==> edge_ok(#[trigger] split(line@, 124)[j], npoints as nat),
            forall|j: int| 0 <= j < i ==> out@[j] == edge_of(#[trigger] split(line@, 124)[j]),
        decreases groups@.len() - i,
    {
        match parse_edge(&groups[i], npoints) {
            Some(e) => {
                out.push(e);
            },
            None => {
                proof {
                    assert(groups@[i as int]@ == split(line@, 124)[i as int]);
                    assert(!edge_ok(split(line@, 124)[i as int], npoints as nat));
                }
                return None;
            },
        }
        i = i + 1;
    }
    proof {
        assert(out@ =~= edges_of(line@));
    }
    Some(out)
}

/// Parse a color line: four integer channels, each at most 255.
fn parse_color(line: &Vec<u8>) -> (r: Option<Rgba>)
    ensures
        match r {
            Some(c) => color_ok(line@) && c == color_of(line@),
            None => !color_ok(line@),
        },
{
    let toks = split_bytes(line.as_slice(), 59);
    if toks.len() < 4 {
        return None;
    }
    let tr = trim_bytes(toks[0].as_slice());
    let r = match parse_u8(tr.as_slice()) {
        Some(v) => v,
        None => {
            proof {
                assert(toks@[0]@ == split(line@, 59)[0]);
                assert(!(int_tok_ok(split(line@, 59)[0]) && int_val(split(line@, 59)[0]) <= 255));
            }
            return None;
        },
    };
    let tg = trim_bytes(toks[1].as_slice());
    let g = match parse_u8(tg.as_slice()) {
        Some(v) => v,
        None => {
            proof {
                assert(toks@[1]@ == split(line@, 59)[1]);
                assert(!(int_tok_ok(split(line@, 59)[1]) && int_val(split(line@, 59)[1]) <= 255));
            }
            return None;
        },
    };
    let tb = trim_bytes(toks[2].as_slice());
    let b = match parse_u8(tb.as_slice()) {
        Some(v) => v,
        None => {
            proof {
                assert(toks@[2]@ == split(line@, 59)[2]);
                assert(!(int_tok_ok(split(line@, 59)[2]) && int_val(split(line@, 59)[2]) <= 255));
            }
            return None;
        },
    };
    let ta = trim_bytes(toks[3].as_slice());
    let a = match parse_u8(ta.as_slice()) {
        Some(v) => v,
        None => {
            proof {
                assert(toks@[3]@ == split(line@, 59)[3]);
                assert(!(int_tok_ok(split(line@, 59)[3]) && int_val(split(line@, 59)[3]) <= 255));
            }
            return None;
        },
    };
    Some(Rgba { r, g, b, a })
}

/// Parse a whole scene file.
///
/// On success the result holds one record per object, in file order,
/// each holding exactly what its five data lines say. On failure the
/// error names the first malformed field of the first malformed
/// object, with the raw line it stood on; every earlier object is
/// well-formed.
pub fn parse_scene(content: &[u8]) -> (r: Result<Vec<SceneRecord>, SceneError>)
    ensures
        match r {
            Ok(recs) => {
                &&& recs@.len() == object_count(content@)
                &&& forall|i: int|
                    0 <= i < recs@.len() ==> first_bad_field(kept_lines(content@), i) is None
                &&& forall|i: int|
                    0 <= i < recs@.len() ==> record_matches(
                        #[trigger] recs@[i],
                        kept_lines(content@),
                        i,
                    )
            },
            Err(e) => {
                &&& (e.object as int) < object_count(content@)
                &&& forall|j: int|
                    0 <= j < e.object ==> first_bad_field(kept_lines(content@), j) is None
                &&& first_bad_field(kept_lines(content@), e.object as int) == Some(e.field)
                &&& e.line@ == field_line(kept_lines(content@), e.object as int, e.field)
            },
        },
{
    let kept = data_lines(content);
    let ghost ls = kept_lines(content@);
    let n = kept.len() / 5;
    proof {
        assert(n as nat == object_count(content@));
    }
    let mut recs: Vec<SceneRecord> = Vec::new();
    let mut obj: usize = 0;
    while obj < n
        invariant
            obj <= n,
            n as nat == ls.len() / 5,
            ls == kept_lines(content@),
            token_views(kept@) == ls,
            kept@.len() == ls.len(),
            ls.len() <= usize::MAX,
            recs@.len() == obj,
            forall|j: int| 0 <= j < obj ==> first_bad_field(ls, j) is None,
            forall|j: int| 0 <= j < obj ==> record_matches(#[trigger] recs@[j], ls, j),
        decreases n - obj,
    {
        proof {
            assert(ls.len() == 5 * (ls.len() / 5) + ls.len() % 5) by {
                vstd::arithmetic::div_mod::lemma_fundamental_div_mod(ls.len() as int, 5);
            }
            assert(5 * (obj as int) + 4 < ls.len());
        }
        let base = 5 * obj;
        proof {
            assert(base + 4 < ls.len());
            assert(kept@[base as int]@ == ls[5 * (obj as int)]);
            assert(kept@[base + 1]@ == ls[5 * (obj as int) + 1]);
            assert(kept@[base + 2]@ == ls[5 * (obj as int) + 2]);
            assert(kept@[base + 3]@ == ls[5 * (obj as int) + 3]);
            assert(kept@[base + 4]@ == ls[5 * (obj as int) + 4]);
        }
        let position = match parse_triple(&kept[base]) {
            Some(t) => t,
            None => {
                let line = copy_bytes(&kept[base]);
                return Err(SceneError { field: SceneField::Position, object: obj, line });
            },
        };
        let rotation = match parse_triple(&kept[base + 1]) {
            Some(t) => t,
            None => {
                let line = copy_bytes(&kept[base + 1]);
                return Err(SceneError { field: SceneField::Rotation, object: obj, line });
            },
        };
        let points = match parse_points(&kept[base + 2]) {
            Some(ps) => ps,
            None => {
                let line = copy_bytes(&kept[base + 2]);
                return Err(SceneError { field: SceneField::Points, object: obj, line });
            },
        };
        let edges = match parse_edges(&kept[base + 3], points.len()) {
            Some(es) => es,
            None => {
                let line = copy_bytes(&kept[base + 3]);
                return Err(SceneError { field: SceneField::Edges, object: obj, line });
            },
        };
        let color = match parse_color(&kept[base + 4]) {
            Some(c) => c,
            None => {
                let line = copy_bytes(&kept[base + 4]);
                return Err(SceneError { field: SceneField::Color, object: obj, line });
            },
        };
        recs.push(SceneRecord { position, rotation, points, edges, color });
        obj = obj + 1;
    }
    Ok(recs)
}

} // verus!
