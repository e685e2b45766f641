//! Flat key/value records in JSON object syntax, as key material is stored:
//! `{"name":"text","flag":true}`, with no whitespace and no escapes.
use vstd::prelude::*;
use crate::bytes::{bytes_eq, copy_bytes, copy_range};

verus! {

pub const QUOTE: u8 = 34;
pub const BACKSLASH: u8 = 92;
pub const OPEN_BRACE: u8 = 123;
pub const CLOSE_BRACE: u8 = 125;
pub const COMMA: u8 = 44;
pub const COLON: u8 = 58;

/// The value of a record field, as a mathematical value.
pub enum RecordValueModel {
    Text(Seq<u8>),
    Flag(bool),
}

/// The value of a record field: a string or a boolean.
#[derive(Debug, Clone)]
pub enum RecordValue {
    Text(Vec<u8>),
    Flag(bool),
}

impl View for RecordValue {
    type V = RecordValueModel;

    open spec fn view(&self) -> RecordValueModel {
        match self {
            RecordValue::Text(t) => RecordValueModel::Text(t@),
            RecordValue::Flag(b) => RecordValueModel::Flag(*b),
        }
    }
}

/// A named field of a record.
#[derive(Debug, Clone)]
pub struct RecordField {
    pub name: Vec<u8>,
    pub value: RecordValue,
}

impl View for RecordField {
    type V = (Seq<u8>, RecordValueModel);

    open spec fn view(&self) -> (Seq<u8>, RecordValueModel) {
        (self.name@, self.value@)
    }
}

/// The mathematical value of a list of fields.
pub open spec fn fields_view(v: Seq<RecordField>) -> Seq<(Seq<u8>, RecordValueModel)> {
    v.map_values(|f: RecordField| f@)
}

/// Text that needs no escaping: it holds no quote and no backslash.
pub open spec fn plain(s: Seq<u8>) -> bool {
    forall|i: int| 0 <= i < s.len() ==> s[i] != QUOTE && s[i] != BACKSLASH
}

/// Fields whose names and texts are all plain.
pub open spec fn plain_fields(fs: Seq<(Seq<u8>, RecordValueModel)>) -> bool {
    forall|i: int|
        0 <= i < fs.len() ==> plain(#[trigger] fs[i].0) && (fs[i].1 matches RecordValueModel::Text(t) ==> plain(t))
}

pub open spec fn true_bytes() -> Seq<u8> {
    seq![116u8, 114u8, 117u8, 101u8]
}

pub open spec fn false_bytes() -> Seq<u8> {
    seq![102u8, 97u8, 108u8, 115u8, 101u8]
}

/// The text of a value.
pub open spec fn render_value(v: RecordValueModel) -> Seq<u8> {
    match v {
        RecordValueModel::Text(t) => seq![QUOTE] + t + seq![QUOTE],
        RecordValueModel::Flag(b) => if b { true_bytes() } else { false_bytes() },
    }
}

/// The text of one field: quoted name, colon, value.
pub open spec fn render_field(f: (Seq<u8>, RecordValueModel)) -> Seq<u8> {
    seq![QUOTE] + f.0 + seq![QUOTE, COLON] + render_value(f.1)
}

/// The fields' texts, separated by commas.
pub open spec fn render_fields(fs: Seq<(Seq<u8>, RecordValueModel)>) -> Seq<u8>
    decreases fs.len(),
{
    if fs.len() == 0 {
        Seq::empty()
    } else if fs.len() == 1 {
        render_field(fs[0])
    } else {
        render_fields(fs.drop_last()) + seq![COMMA] + render_field(fs.last())
    }
}

/// The text of a record: its fields between braces.
pub open spec fn render_record(fs: Seq<(Seq<u8>, RecordValueModel)>) -> Seq<u8> {
    seq![OPEN_BRACE] + render_fields(fs) + seq![CLOSE_BRACE]
}

/// Whether `p` occurs in `b` at `pos`.
pub open spec fn occurs_at(b: Seq<u8>, pos: int, p: Seq<u8>) -> bool {
    0 <= pos && pos + p.len() <= b.len() && forall|k: int| 0 <= k < p.len() ==> b[pos + k] == #[trigger] p[k]
}

/// The separator before field `j`.
spec fn sep(j: int) -> Seq<u8> {
    if j == 0 { Seq::empty() } else { seq![COMMA] }
}

proof fn lemma_render_prefix(fs: Seq<(Seq<u8>, RecordValueModel)>, j: int)
    requires
        0 <= j < fs.len(),
    ensures
        render_fields(fs.subrange(0, j + 1)) == render_fields(fs.subrange(0, j)) + sep(j) + render_field(fs[j]),
{
    let s = fs.subrange(0, j + 1);
    assert(s.drop_last() =~= fs.subrange(0, j));
    if j == 0 {
        assert(render_fields(fs.subrange(0, 0)) =~= Seq::<u8>::empty());
        assert(render_fields(s) == render_field(s[0]));
        assert(render_fields(fs.subrange(0, j)) + sep(j) + render_field(fs[j]) =~= render_field(fs[j]));
    }
}

/// The index of the first quote at or after `start`, if only plain text lies between.
fn scan_plain(b: &[u8], start: usize) -> (r: Option<usize>)
    requires
        start <= b@.len(),
    ensures
        r matches Some(e) ==> start <= e < b@.len() && b@[e as int] == QUOTE && plain(
            b@.subrange(start as int, e as int),
        ),
        r is None ==> forall|e: int|
            start <= e < b@.len() && b@[e] == QUOTE ==> !plain(#[trigger] b@.subrange(start as int, e)),
{
    let mut i: usize = start;
    while i < b.len()
        invariant
            start <= i <= b@.len(),
            plain(b@.subrange(start as int, i as int)),
        decreases b@.len() - i,
    {
        if b[i] == QUOTE {
            return Some(i);
        }
        if b[i] == BACKSLASH {
            proof {
                assert forall|e: int| start <= e < b@.len() && b@[e] == QUOTE implies !plain(
                    #[trigger] b@.subrange(start as int, e),
                ) by {
                    if e > i {
                        assert(b@.subrange(start as int, e)[i - start] == BACKSLASH);
                    } else {
                        assert(e != i);
                        assert(b@.subrange(start as int, i as int)[e - start] == QUOTE);
                    }
                }
            }
            return None;
        }
        i = i + 1;
        assert(plain(b@.subrange(start as int, i as int))) by {
            assert forall|k: int| 0 <= k < i - start implies b@.subrange(start as int, i as int)[k] != QUOTE
                && b@.subrange(start as int, i as int)[k] != BACKSLASH by {
                if k < i - 1 - start {
                    assert(b@.subrange(start as int, i as int)[k] == b@.subrange(start as int, i - 1)[k]);
                }
            }
        }
    }
    proof {
        assert forall|e: int| start <= e < b@.len() && b@[e] == QUOTE implies !plain(
            #[trigger] b@.subrange(start as int, e),
        ) by {
            assert(b@.subrange(start as int, i as int)[e - start] == QUOTE);
        }
    }
    None
}

/// Where a quoted plain text starting at `start` ends: the scan finds exactly its closing quote.
proof fn lemma_scan_finds(b: Seq<u8>, start: int, t: Seq<u8>, e: int)
    requires
        0 <= start,
        start + t.len() < b.len(),
        b.subrange(start, start + t.len()) == t,
        b[start + t.len()] == QUOTE,
        plain(t),
        start <= e < b.len(),
        b[e] == QUOTE,
        plain(b.subrange(start, e)),
    ensures
        e == start + t.len(),
{
    if e < start + t.len() {
        assert(t[e - start] == b[e]);
    } else if e > start + t.len() {
        assert(b.subrange(start, e)[t.len() as int] == QUOTE);
    }
}
fn matches_at(b: &[u8], pos: usize, lit: &[u8]) -> (r: bool)
    requires
        pos <= b@.len(),
    ensures
        r <==> pos + lit@.len() <= b@.len() && b@.subrange(pos as int, pos + lit@.len()) == lit@,
{
    if b.len() - pos < lit.len() {
        return false;
    }
    let mut i: usize = 0;
    while i < lit.len()
        invariant
            i <= lit@.len(),
            pos + lit@.len() <= b@.len(),
            b@.len() <= usize::MAX,
            forall|k: int| 0 <= k < i ==> b@[pos + k] == lit@[k],
        decreases lit@.len() - i,
    {
        if b[pos + i] != lit[i] {
            assert(b@.subrange(pos as int, pos + lit@.len())[i as int] != lit@[i as int]);
            return false;
        }
        i = i + 1;
    }
    assert(b@.subrange(pos as int, pos + lit@.len()) =~= lit@);
    true
}

/// Parses one value at `pos`: a quoted plain text, `true` or `false`.
/// Returns the value and the position after it.
fn parse_value(b: &[u8], pos: usize) -> (r: Option<(RecordValue, usize)>)
    requires
        pos <= b@.len(),
    ensures
        r matches Some((v, end)) ==> pos < end <= b@.len() && b@.subrange(pos as int, end as int)
            == render_value(v@) && (v@ matches RecordValueModel::Text(t) ==> plain(t)),
        forall|v: RecordValueModel|
            (v matches RecordValueModel::Text(t) ==> plain(t)) && occurs_at(b@, pos as int, #[trigger] render_value(v)) ==> (r matches Some((w, end)) && w@ == v && end
                == pos + render_value(v).len()),
{
    let t: [u8; 4] = [116u8, 114u8, 117u8, 101u8];
    let f: [u8; 5] = [102u8, 97u8, 108u8, 115u8, 101u8];
    assert(t@ =~= true_bytes());
    assert(f@ =~= false_bytes());
    if pos < b.len() && b[pos] == QUOTE {
        match scan_plain(b, pos + 1) {
            Some(e) => {
                let text = copy_range(b, pos + 1, e);
                let ghost v = RecordValueModel::Text(text@);
                assert(b@.subrange(pos as int, e + 1) =~= render_value(v));
                proof {
                    assert forall|w: RecordValueModel|
                        (w matches RecordValueModel::Text(u) ==> plain(u)) && occurs_at(b@, pos as int, #[trigger] render_value(w)) implies w == v && e + 1 == pos
                            + render_value(w).len() by {
                        let s = render_value(w);
                        assert(s[0] == b@[pos as int]);
                        if let RecordValueModel::Text(u) = w {
                            assert(b@.subrange(pos + 1, pos + 1 + u.len()) =~= u) by {
                                assert forall|k: int| 0 <= k < u.len() implies b@.subrange(pos + 1, pos + 1 + u.len())[k]
                                    == u[k] by {
                                    assert(s[1 + k] == u[k]);
                                }
                            }
                            assert(s[1 + u.len() as int] == QUOTE);
                            lemma_scan_finds(b@, pos + 1, u, e as int);
                            assert(text@ =~= u);
                        } else {
                            if let RecordValueModel::Flag(x) = w {
                                if x { assert(s[0] == 116u8); } else { assert(s[0] == 102u8); }
                            }
                        }
                    }
                }
                Some((RecordValue::Text(text), e + 1))
            },
            None => {
                proof {
                    assert forall|w: RecordValueModel|
                        (w matches RecordValueModel::Text(u) ==> plain(u)) && occurs_at(b@, pos as int, #[trigger] render_value(w)) implies false by {
                        let s = render_value(w);
                        assert(s[0] == b@[pos as int]);
                        if let RecordValueModel::Text(u) = w {
                            assert(b@.subrange(pos + 1, pos + 1 + u.len()) =~= u) by {
                                assert forall|k: int| 0 <= k < u.len() implies b@.subrange(pos + 1, pos + 1 + u.len())[k]
                                    == u[k] by {
                                    assert(s[1 + k] == u[k]);
                                }
                            }
                            assert(s[1 + u.len() as int] == QUOTE);
                            assert(b@[pos + 1 + u.len() as int] == QUOTE);
                            assert(!plain(b@.subrange(pos + 1, pos + 1 + u.len())));
                        } else {
                            if let RecordValueModel::Flag(x) = w {
                                if x { assert(s[0] == 116u8); } else { assert(s[0] == 102u8); }
                            }
                        }
                    }
                }
                None
            },
        }
    } else if matches_at(b, pos, t.as_slice()) {
        proof {
            assert forall|w: RecordValueModel|
                (w matches RecordValueModel::Text(u) ==> plain(u)) && occurs_at(b@, pos as int, #[trigger] render_value(w)) implies w == RecordValueModel::Flag(true) by {
                let s = render_value(w);
                assert(s[0] == b@[pos as int]);
                assert(b@[pos as int] == b@.subrange(pos as int, pos + 4)[0]);
                if let RecordValueModel::Flag(x) = w {
                    if !x { assert(s[0] == 102u8); }
                }
            }
        }
        Some((RecordValue::Flag(true), pos + 4))
    } else if matches_at(b, pos, f.as_slice()) {
        proof {
            assert forall|w: RecordValueModel|
                (w matches RecordValueModel::Text(u) ==> plain(u)) && occurs_at(b@, pos as int, #[trigger] render_value(w)) implies w == RecordValueModel::Flag(false) by {
                let s = render_value(w);
                assert(s[0] == b@[pos as int]);
                assert(b@[pos as int] == b@.subrange(pos as int, pos + 5)[0]);
                if let RecordValueModel::Flag(x) = w {
                    if x { assert(s[0] == 116u8); }
                }
            }
        }
        Some((RecordValue::Flag(false), pos + 5))
    } else {
        proof {
            assert forall|w: RecordValueModel|
                (w matches RecordValueModel::Text(u) ==> plain(u)) && occurs_at(b@, pos as int, #[trigger] render_value(w)) implies false by {
                let s = render_value(w);
                if let RecordValueModel::Flag(x) = w {
                    if x {
                        assert(b@.subrange(pos as int, pos + 4) =~= s.subrange(0, 4));
                        assert(s.subrange(0, 4) =~= true_bytes());
                    } else {
                        assert(b@.subrange(pos as int, pos + 5) =~= s.subrange(0, 5));
                        assert(s.subrange(0, 5) =~= false_bytes());
                    }
                } else {
                    assert(s[0] == b@[pos as int]);
                }
            }
        }
        None
    }
}

proof fn lemma_occurs_split(b: Seq<u8>, p: int, x: Seq<u8>, y: Seq<u8>)
    requires
        occurs_at(b, p, x + y),
    ensures
        occurs_at(b, p, x),
        occurs_at(b, p + x.len(), y),
{
    assert forall|k: int| 0 <= k < x.len() implies b[p + k] == #[trigger] x[k] by {
        assert((x + y)[k] == x[k]);
    }
    assert forall|k: int| 0 <= k < y.len() implies b[p + x.len() + k] == #[trigger] y[k] by {
        assert((x + y)[x.len() + k] == y[k]);
    }
}

proof fn lemma_occurs_trans(b: Seq<u8>, p: int, s: Seq<u8>, q: int, x: Seq<u8>)
    requires
        occurs_at(b, p, s),
        occurs_at(s, q, x),
    ensures
        occurs_at(b, p + q, x),
{
    assert forall|k: int| 0 <= k < x.len() implies b[p + q + k] == #[trigger] x[k] by {
        assert(s[q + k] == x[k]);
        assert(b[p + (q + k)] == s[q + k]);
    }
}

/// The text of the first `k` fields begins the text of all of them.
proof fn lemma_render_fields_prefix(fs: Seq<(Seq<u8>, RecordValueModel)>, k: int)
    requires
        0 <= k <= fs.len(),
    ensures
        occurs_at(render_fields(fs), 0, render_fields(fs.subrange(0, k))),
    decreases fs.len() - k,
{
    if k == fs.len() {
        assert(fs.subrange(0, k) =~= fs);
    } else {
        lemma_render_fields_prefix(fs, k + 1);
        lemma_render_prefix(fs, k);
        let a = render_fields(fs.subrange(0, k));
        lemma_occurs_split(render_fields(fs), 0, a + sep(k), render_field(fs[k]));
        lemma_occurs_split(render_fields(fs), 0, a, sep(k));
    }
}

/// What a field's text at `pp` says of the bytes there.
proof fn lemma_field_at(b: Seq<u8>, pp: int, f: (Seq<u8>, RecordValueModel))
    requires
        occurs_at(b, pp, render_field(f)),
    ensures
        b[pp] == QUOTE,
        pp + 1 + f.0.len() < b.len(),
        b.subrange(pp + 1, pp + 1 + f.0.len()) == f.0,
        b[pp + 1 + f.0.len()] == QUOTE,
        b[pp + 2 + f.0.len()] == COLON,
        occurs_at(b, pp + 3 + f.0.len(), render_value(f.1)),
{
    let x = seq![QUOTE] + f.0 + seq![QUOTE, COLON];
    lemma_occurs_split(b, pp, x, render_value(f.1));
    assert(x[0] == QUOTE);
    assert(x[1 + f.0.len() as int] == QUOTE);
    assert(x[2 + f.0.len() as int] == COLON);
    assert forall|k: int| 0 <= k < f.0.len() implies b.subrange(pp + 1, pp + 1 + f.0.len())[k] == f.0[k] by {
        assert(x[1 + k] == f.0[k]);
    }
    assert(b.subrange(pp + 1, pp + 1 + f.0.len()) =~= f.0);
}

/// After the first `j` fields of a rendering come field `j`, or the closing brace.
proof fn lemma_continues(b: Seq<u8>, fs: Seq<(Seq<u8>, RecordValueModel)>, j: int, seg: int)
    requires
        render_record(fs) == b,
        0 <= j <= fs.len(),
        seg == 1 + render_fields(fs.subrange(0, j)).len(),
    ensures
        j == fs.len() ==> b[seg] == CLOSE_BRACE && b.len() == seg + 1,
        j < fs.len() ==> occurs_at(b, seg, sep(j) + render_field(fs[j])),
{
    let x = render_fields(fs);
    assert(occurs_at(b, 1, x)) by {
        assert forall|k: int| 0 <= k < x.len() implies b[1 + k] == #[trigger] x[k] by {
            assert(render_record(fs)[1 + k] == x[k]);
        }
    }
    if j == fs.len() {
        assert(fs.subrange(0, j) =~= fs);
        assert(render_record(fs)[1 + x.len() as int] == CLOSE_BRACE);
    } else {
        lemma_render_fields_prefix(fs, j + 1);
        lemma_render_prefix(fs, j);
        let a = render_fields(fs.subrange(0, j));
        assert(render_fields(fs.subrange(0, j + 1)) =~= a + (sep(j) + render_field(fs[j])));
        lemma_occurs_trans(b, 1, x, 0, render_fields(fs.subrange(0, j + 1)));
        lemma_occurs_split(b, 1, a, sep(j) + render_field(fs[j]));
    }
}

/// Parses a record. Any rendering of plain fields parses back to exactly those
/// fields; whatever parses is the rendering of the fields returned.
#[verifier::rlimit(40)]
pub fn parse_record(b: &[u8]) -> (r: Option<Vec<RecordField>>)
    ensures
        r matches Some(fs) ==> plain_fields(fields_view(fs@)) && render_record(fields_view(fs@)) == b@,
        forall|fs: Seq<(Seq<u8>, RecordValueModel)>|
            plain_fields(fs) && #[trigger] render_record(fs) == b@ ==> (r matches Some(v) && fields_view(v@) == fs),
{
    if b.len() < 2 || b[0] != OPEN_BRACE {
        proof {
            assert forall|fs: Seq<(Seq<u8>, RecordValueModel)>|
                plain_fields(fs) && #[trigger] render_record(fs) == b@ implies false by {
                assert(render_record(fs)[0] == OPEN_BRACE);
                assert(render_record(fs).len() >= 2);
            }
        }
        return None;
    }
    let mut out: Vec<RecordField> = Vec::new();
    let mut pos: usize = 1;
    proof {
        assert(fields_view(out@) =~= Seq::<(Seq<u8>, RecordValueModel)>::empty());
        assert(b@.subrange(0, 1) =~= seq![OPEN_BRACE] + render_fields(fields_view(out@)));
        assert forall|fs: Seq<(Seq<u8>, RecordValueModel)>|
            plain_fields(fs) && #[trigger] render_record(fs) == b@ implies fields_view(out@) == fs.subrange(0, 0)
                && pos == 1 + render_fields(fs.subrange(0, 0)).len() by {
            assert(fs.subrange(0, 0) =~= Seq::<(Seq<u8>, RecordValueModel)>::empty());
            assert(fields_view(out@) =~= fs.subrange(0, 0));
        }
    }
    loop
        invariant
            1 <= pos <= b@.len(),
            b@.len() <= usize::MAX,
            b@.subrange(0, pos as int) == seq![OPEN_BRACE] + render_fields(fields_view(out@)),
            plain_fields(fields_view(out@)),
            forall|fs: Seq<(Seq<u8>, RecordValueModel)>|
                plain_fields(fs) && #[trigger] render_record(fs) == b@ ==> out@.len() <= fs.len()
                    && fields_view(out@) == fs.subrange(0, out@.len() as int)
                    && pos == 1 + render_fields(fs.subrange(0, out@.len() as int)).len(),
        decreases b@.len() - pos,
    {
        let ghost j = out@.len() as int;
        let ghost seg = pos as int;
        // Every rendering that reaches this point continues with field `j`, or ends.
        proof {
            assert forall|fs: Seq<(Seq<u8>, RecordValueModel)>|
                plain_fields(fs) && #[trigger] render_record(fs) == b@ implies (j == fs.len() ==> b@[seg] == CLOSE_BRACE
                    && b@.len() == seg + 1) && (j < fs.len() ==> occurs_at(b@, seg, sep(j) + render_field(fs[j]))) by {
                lemma_continues(b@, fs, j, seg);
            }
        }
        if pos < b.len() && b[pos] == CLOSE_BRACE {
            if pos + 1 == b.len() {
                proof {
                    assert(b@ =~= b@.subrange(0, pos as int) + seq![CLOSE_BRACE]);
                    assert forall|fs: Seq<(Seq<u8>, RecordValueModel)>|
                        plain_fields(fs) && #[trigger] render_record(fs) == b@ implies fields_view(out@) == fs by {
                        if j < fs.len() {
                            lemma_occurs_split(b@, seg, sep(j), render_field(fs[j]));
                            lemma_field_at(b@, seg + sep(j).len(), fs[j]);
                            if j > 0 {
                                assert(sep(j)[0] == COMMA);
                            }
                        }
                        assert(fs.subrange(0, j) =~= fs);
                    }
                }
                return Some(out);
            }
            proof {
                assert forall|fs: Seq<(Seq<u8>, RecordValueModel)>|
                    plain_fields(fs) && #[trigger] render_record(fs) == b@ implies false by {
                    if j < fs.len() {
                        lemma_occurs_split(b@, seg, sep(j), render_field(fs[j]));
                        lemma_field_at(b@, seg + sep(j).len(), fs[j]);
                        if j > 0 {
                            assert(sep(j)[0] == COMMA);
                        }
                    }
                }
            }
            return None;
        }
        let mut p: usize = pos;
        if out.len() > 0 {
            if p >= b.len() || b[p] != COMMA {
                proof {
                    assert forall|fs: Seq<(Seq<u8>, RecordValueModel)>|
                        plain_fields(fs) && #[trigger] render_record(fs) == b@ implies false by {
                        if j < fs.len() {
                            lemma_occurs_split(b@, seg, sep(j), render_field(fs[j]));
                            assert(sep(j)[0] == COMMA);
                        }
                    }
                }
                return None;
            }
            p = p + 1;
        }
        assert(p == seg + sep(j).len());
        // Every rendering has field `j` at `p`.
        proof {
            assert forall|fs: Seq<(Seq<u8>, RecordValueModel)>|
                plain_fields(fs) && #[trigger] render_record(fs) == b@ implies j < fs.len() && occurs_at(
                    b@,
                    p as int,
                    render_field(fs[j]),
                ) by {
                if j < fs.len() {
                    lemma_occurs_split(b@, seg, sep(j), render_field(fs[j]));
                }
            }
        }
        if p >= b.len() || b[p] != QUOTE {
            proof {
                assert forall|fs: Seq<(Seq<u8>, RecordValueModel)>|
                    plain_fields(fs) && #[trigger] render_record(fs) == b@ implies false by {
                    lemma_field_at(b@, p as int, fs[j]);
                }
            }
            return None;
        }
        let e = match scan_plain(b, p + 1) {
            Some(e) => e,
            None => {
                proof {
                    assert forall|fs: Seq<(Seq<u8>, RecordValueModel)>|
                        plain_fields(fs) && #[trigger] render_record(fs) == b@ implies false by {
                        lemma_field_at(b@, p as int, fs[j]);
                        assert(plain(fs[j].0));
                        assert(b@.subrange(p + 1, p + 1 + fs[j].0.len()) == fs[j].0);
                    }
                }
                return None;
            },
        };
        proof {
            assert forall|fs: Seq<(Seq<u8>, RecordValueModel)>|
                plain_fields(fs) && #[trigger] render_record(fs) == b@ implies e == p + 1 + fs[j].0.len() by {
                lemma_field_at(b@, p as int, fs[j]);
                assert(plain(fs[j].0));
                lemma_scan_finds(b@, p + 1, fs[j].0, e as int);
            }
        }
        if e + 1 >= b.len() || b[e + 1] != COLON {
            proof {
                assert forall|fs: Seq<(Seq<u8>, RecordValueModel)>|
                    plain_fields(fs) && #[trigger] render_record(fs) == b@ implies false by {
                    lemma_field_at(b@, p as int, fs[j]);
                    assert(plain(fs[j].0));
                }
            }
            return None;
        }
        let name = copy_range(b, p + 1, e);
        let (value, end) = match parse_value(b, e + 2) {
            Some(x) => x,
            None => {
                proof {
                    assert forall|fs: Seq<(Seq<u8>, RecordValueModel)>|
                        plain_fields(fs) && #[trigger] render_record(fs) == b@ implies false by {
                        lemma_field_at(b@, p as int, fs[j]);
                        assert(plain(fs[j].0));
                        assert(fs[j].1 matches RecordValueModel::Text(t) ==> plain(t));
                    }
                }
                return None;
            },
        };
        let ghost old_out = out@;
        let field = RecordField { name, value };
        out.push(field);
        pos = end;
        proof {
            let f = field@;
            assert(fields_view(out@) =~= fields_view(old_out).push(f));
            assert(fields_view(out@).subrange(0, j) =~= fields_view(old_out));
            lemma_render_prefix(fields_view(out@), j);
            assert(fields_view(out@).subrange(0, j + 1) =~= fields_view(out@));
            assert(b@.subrange(p + 1, e as int) == f.0);
            assert(b@.subrange(0, pos as int) =~= b@.subrange(0, seg) + sep(j) + render_field(f)) by {
                assert(b@.subrange(e + 2, end as int) == render_value(f.1));
                assert(b@.subrange(0, pos as int) =~= b@.subrange(0, seg) + b@.subrange(seg, p as int) + seq![QUOTE]
                    + b@.subrange(p + 1, e as int) + seq![QUOTE, COLON] + b@.subrange(e + 2, end as int));
                if j > 0 {
                    assert(b@.subrange(seg, p as int) =~= seq![COMMA]);
                } else {
                    assert(b@.subrange(seg, p as int) =~= Seq::<u8>::empty());
                }
            }
            assert(plain_fields(fields_view(out@))) by {
                assert forall|i: int| 0 <= i < fields_view(out@).len() implies plain(#[trigger] fields_view(out@)[i].0)
                    && (fields_view(out@)[i].1 matches RecordValueModel::Text(t) ==> plain(t)) by {
                    if i < j {
                        assert(fields_view(out@)[i] == fields_view(old_out)[i]);
                    }
                }
            }
            assert forall|fs: Seq<(Seq<u8>, RecordValueModel)>|
                plain_fields(fs) && #[trigger] render_record(fs) == b@ implies out@.len() <= fs.len()
                    && fields_view(out@) == fs.subrange(0, out@.len() as int)
                    && pos == 1 + render_fields(fs.subrange(0, out@.len() as int)).len() by {
                lemma_field_at(b@, p as int, fs[j]);
                assert(plain(fs[j].0));
                assert(fs[j].1 matches RecordValueModel::Text(t) ==> plain(t));
                assert(f.0 =~= fs[j].0);
                assert(f.1 == fs[j].1);
                assert(fields_view(out@) =~= fs.subrange(0, j + 1)) by {
                    assert(fs.subrange(0, j + 1) =~= fs.subrange(0, j).push(fs[j]));
                }
                lemma_render_prefix(fs, j);
            }
        }
    }
}

/// Whether no field before `i` is named `name`.
pub open spec fn absent_before(fs: Seq<(Seq<u8>, RecordValueModel)>, name: Seq<u8>, i: int) -> bool {
    forall|k: int| 0 <= k < i ==> (#[trigger] fs[k]).0 != name
}

/// The value of the first field named `name`.
pub open spec fn lookup(fs: Seq<(Seq<u8>, RecordValueModel)>, name: Seq<u8>) -> Option<RecordValueModel> {
    if exists|i: int| 0 <= i < fs.len() && fs[i].0 == name && absent_before(fs, name, i) {
        let i = choose|i: int| 0 <= i < fs.len() && fs[i].0 == name && absent_before(fs, name, i);
        Some(fs[i].1)
    } else {
        None
    }
}

/// The text of the first field named `name`, if it is a text.
pub open spec fn text_of(fs: Seq<(Seq<u8>, RecordValueModel)>, name: Seq<u8>) -> Option<Seq<u8>> {
    match lookup(fs, name) {
        Some(RecordValueModel::Text(t)) => Some(t),
        _ => None,
    }
}

/// The flag of the first field named `name`, if it is a flag.
pub open spec fn flag_of(fs: Seq<(Seq<u8>, RecordValueModel)>, name: Seq<u8>) -> Option<bool> {
    match lookup(fs, name) {
        Some(RecordValueModel::Flag(b)) => Some(b),
        _ => None,
    }
}

/// The index of the first field named `name`.
pub fn find_field(fs: &Vec<RecordField>, name: &[u8]) -> (r: Option<usize>)
    ensures
        r matches Some(i) ==> i < fs@.len() && lookup(fields_view(fs@), name@) == Some(fs@[i as int].value@),
        r is None ==> lookup(fields_view(fs@), name@) is None,
{
    let ghost v = fields_view(fs@);
    let mut i: usize = 0;
    while i < fs.len()
        invariant
            i <= fs@.len(),
            v == fields_view(fs@),
            absent_before(v, name@, i as int),
        decreases fs@.len() - i,
    {
        if bytes_eq(fs[i].name.as_slice(), name) {
            proof {
                assert(v[i as int].0 == name@);
                let j = choose|j: int| 0 <= j < v.len() && v[j].0 == name@ && absent_before(v, name@, j);
                if j < i {
                    assert(v[j].0 != name@);
                } else if j > i {
                    assert(v[i as int].0 != name@);
                }
            }
            return Some(i);
        }
        i = i + 1;
    }
    proof {
        if exists|j: int| 0 <= j < v.len() && v[j].0 == name@ && absent_before(v, name@, j) {
            let j = choose|j: int| 0 <= j < v.len() && v[j].0 == name@ && absent_before(v, name@, j);
            assert(v[j].0 != name@);
        }
    }
    None
}

/// The text of the first field named `name`, if it is a text.
pub fn get_text(fs: &Vec<RecordField>, name: &[u8]) -> (r: Option<Vec<u8>>)
    ensures
        r matches Some(t) ==> text_of(fields_view(fs@), name@) == Some(t@),
        r is None ==> text_of(fields_view(fs@), name@) is None,
{
    match find_field(fs, name) {
        Some(i) => match &fs[i].value {
            RecordValue::Text(t) => Some(copy_bytes(t.as_slice())),
            RecordValue::Flag(_) => None,
        },
        None => None,
    }
}

/// The flag of the first field named `name`, if it is a flag.
pub fn get_flag(fs: &Vec<RecordField>, name: &[u8]) -> (r: Option<bool>)
    ensures
        r == flag_of(fields_view(fs@), name@),
{
    match find_field(fs, name) {
        Some(i) => match &fs[i].value {
            RecordValue::Text(_) => None,
            RecordValue::Flag(b) => Some(*b),
        },
        None => None,
    }
}

} // verus!
