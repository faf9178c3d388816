//! The text form of a mesh, line by line.
//!
//! A vertex record is `v` and three fixed-point coordinates with a decimal
//! point; a face record is `f` and three or four 1-based vertex indices.  A
//! four-index record is split into two triangles sharing the diagonal from
//! its first to its third vertex.  Lines that match no record are passed
//! over in silence.  Reading and writing files is the caller's business;
//! this module only turns bytes into entities and back.

use vstd::prelude::*;

use crate::mesh::Mesh;
use crate::store::Store;
use crate::store::VERTEX_CAP;
use crate::vector3::Vector3;
use crate::vector3::COORD_LIMIT;
use crate::vertex::Vertex;
use crate::face::Face;
use crate::Error;
use crate::FacePtr;
use crate::VertexPtr;

verus! {

/// An ASCII decimal digit.
pub open spec fn spec_is_digit(b: u8) -> bool {
    48 <= b && b <= 57
}

/// Every byte of a non-empty span is a digit.
pub open spec fn spec_all_digits(s: Seq<u8>) -> bool {
    s.len() > 0 && forall|i: int| 0 <= i < s.len() ==> spec_is_digit(#[trigger] s[i])
}

/// The number a digit span denotes, most significant digit first.
pub open spec fn spec_digits_value(s: Seq<u8>) -> int
    decreases s.len(),
{
    if s.len() == 0 {
        0
    } else {
        spec_digits_value(s.drop_last()) * 10 + (s.last() - 48)
    }
}

/// Ten to the `n`th.
pub open spec fn spec_pow10(n: nat) -> int
    decreases n,
{
    if n == 0 {
        1
    } else {
        10 * spec_pow10((n - 1) as nat)
    }
}

/// A digit span of length `n` denotes less than ten to the `n`th.
proof fn lemma_digits_value_bound(s: Seq<u8>)
    requires
        forall|i: int| 0 <= i < s.len() ==> spec_is_digit(#[trigger] s[i]),
    ensures
        0 <= spec_digits_value(s) < spec_pow10(s.len()),
    decreases s.len(),
{
    if s.len() > 0 {
        let t = s.drop_last();
        assert(forall|i: int| 0 <= i < t.len() ==> spec_is_digit(#[trigger] t[i])) by {
            assert(forall|i: int| 0 <= i < t.len() ==> t[i] == s[i]);
        }
        lemma_digits_value_bound(t);
        assert(spec_digits_value(s) < 10 * spec_pow10(t.len())) by (nonlinear_arith)
            requires
                spec_digits_value(s) == spec_digits_value(t) * 10 + (s.last() - 48),
                0 <= spec_digits_value(t) < spec_pow10(t.len()),
                s.last() - 48 < 10,
        ;
    }
}

/// The first position of byte `b` in `[from, to)`; `to` when absent.
pub open spec fn spec_find_in(s: Seq<u8>, b: u8, from: int, to: int) -> int
    decreases to - from,
{
    if !(0 <= from < to && to <= s.len()) {
        to
    } else if s[from] == b {
        from
    } else {
        spec_find_in(s, b, from + 1, to)
    }
}

/// A scan that saw no `b` before `e` and stops at `b` or at the end found
/// the first occurrence.
proof fn lemma_find_in_unique(s: Seq<u8>, b: u8, from: int, to: int, e: int)
    requires
        0 <= from <= e <= to <= s.len(),
        forall|j: int| from <= j < e ==> s[j] != b,
        e == to || s[e] == b,
    ensures
        spec_find_in(s, b, from, to) == e,
    decreases e - from,
{
    if from < e {
        lemma_find_in_unique(s, b, from + 1, to, e);
    }
}

/// Parse a span of at most twelve digits; exactly the all-digit spans
/// succeed, and the value is the denoted number.
#[verifier::loop_isolation(false)]
fn parse_digits(data: &[u8], from: usize, to: usize) -> (r: Option<u64>)
    requires
        from <= to && to <= data@.len(),
        to - from <= 12,
    ensures
        (r is Some) == spec_all_digits(data@.subrange(from as int, to as int)),
        r matches Some(v) ==> v as int == spec_digits_value(
            data@.subrange(from as int, to as int),
        ),
{
    if from == to {
        return None;
    }
    let mut v: u64 = 0;
    let mut i: usize = from;
    while i < to
        invariant
            from <= i <= to,
            forall|j: int| from <= j < i ==> spec_is_digit(#[trigger] data@[j]),
            v as int == spec_digits_value(data@.subrange(from as int, i as int)),
            (v as int) < spec_pow10((i - from) as nat),
        decreases to - i,
    {
        let b = data[i];
        if b < 48 || b > 57 {
            proof {
                assert(!spec_all_digits(data@.subrange(from as int, to as int))) by {
                    assert(data@.subrange(from as int, to as int)[i - from as int]
                        == data@[i as int]);
                }
            }
            return None;
        }
        proof {
            lemma_digits_value_bound(data@.subrange(from as int, i as int));
            assert(spec_pow10((i - from) as nat) <= spec_pow10(12)) by {
                lemma_pow10_increases((i - from) as nat, 12);
            }
            assert(spec_pow10(12) == 1000000000000) by {
                reveal_with_fuel(spec_pow10, 13);
            }
            assert(data@.subrange(from as int, i as int + 1).drop_last() =~= data@.subrange(
                from as int,
                i as int,
            ));
            assert(data@.subrange(from as int, i as int + 1).last() == data@[i as int]);
        }
        v = v * 10 + ((b - 48) as u64);
        i = i + 1;
        proof {
            assert((v as int) < spec_pow10((i - from) as nat)) by {
                lemma_digits_value_bound(data@.subrange(from as int, i as int));
            }
        }
    }
    proof {
        assert(spec_all_digits(data@.subrange(from as int, to as int)));
    }
    Some(v)
}

/// Ten to the `n`th grows with `n`.
proof fn lemma_pow10_increases(a: nat, b: nat)
    requires
        a <= b,
    ensures
        spec_pow10(a) <= spec_pow10(b),
        spec_pow10(a) >= 1,
    decreases b,
{
    if a < b {
        lemma_pow10_increases(a, (b - 1) as nat);
        assert(spec_pow10(b) == 10 * spec_pow10((b - 1) as nat));
    } else if b > 0 {
        lemma_pow10_increases((a - 1) as nat, (b - 1) as nat);
    }
}

/// Ten to a small power, as a run-time value.
#[verifier::loop_isolation(false)]
fn pow10(n: usize) -> (r: u64)
    requires
        n <= 12,
    ensures
        r as int == spec_pow10(n as nat),
{
    let mut r: u64 = 1;
    let mut i: usize = 0;
    while i < n
        invariant
            i <= n,
            r as int == spec_pow10(i as nat),
        decreases n - i,
    {
        proof {
            lemma_pow10_increases(i as nat, 12);
            lemma_pow10_increases((i + 1) as nat, 12);
            assert(spec_pow10(12) == 1000000000000) by {
                reveal_with_fuel(spec_pow10, 13);
            }
        }
        r = r * 10;
        i = i + 1;
    }
    r
}

/// The value of one fixed-point coordinate span: an optional minus sign,
/// one to six integer digits, a decimal point, and one to six fraction
/// digits, scaled to six implied decimals.
pub open spec fn spec_parse_fixed(s: Seq<u8>, from: int, to: int) -> Option<i64> {
    let neg = from < to && s[from] == 45;
    let start = if neg {
        from + 1
    } else {
        from
    };
    let dot = spec_find_in(s, 46, start, to);
    if dot == to || dot == start || dot - start > 6 || to - (dot + 1) > 6 || dot + 1 == to {
        None
    } else if !spec_all_digits(s.subrange(start, dot)) || !spec_all_digits(
        s.subrange(dot + 1, to),
    ) {
        None
    } else {
        let m = spec_digits_value(s.subrange(start, dot)) * 1000000 + spec_digits_value(
            s.subrange(dot + 1, to),
        ) * spec_pow10((6 - (to - (dot + 1))) as nat);
        if neg {
            Some((-m) as i64)
        } else {
            Some(m as i64)
        }
    }
}

/// Parse one fixed-point coordinate span; exactly the spans of the grammar
/// succeed, with the denoted value.
#[verifier::loop_isolation(false)]
fn parse_fixed(data: &[u8], from: usize, to: usize) -> (r: Option<i64>)
    requires
        from <= to && to <= data@.len(),
    ensures
        r == spec_parse_fixed(data@, from as int, to as int),
        r matches Some(v) ==> -1000000000000 <= v <= 1000000000000,
{
    let mut start = from;
    let mut neg = false;
    if start < to && data[start] == 45 {
        neg = true;
        start = start + 1;
    }
    // find the decimal point
    let mut dot = start;
    while dot < to && data[dot] != 46
        invariant
            start <= dot <= to,
            forall|j: int| start <= j < dot ==> data@[j] != 46,
        decreases to - dot,
    {
        dot = dot + 1;
    }
    proof {
        lemma_find_in_unique(data@, 46, start as int, to as int, dot as int);
    }
    if dot == to || dot == start || dot - start > 6 || to - (dot + 1) > 6 || dot + 1 == to {
        return None;
    }
    let ip = match parse_digits(data, start, dot) {
        Some(v) => v,
        None => {
            return None;
        },
    };
    let fp = match parse_digits(data, dot + 1, to) {
        Some(v) => v,
        None => {
            return None;
        },
    };
    proof {
        lemma_digits_value_bound(data@.subrange(start as int, dot as int));
        lemma_pow10_increases((dot - start) as nat, 6);
        lemma_digits_value_bound(data@.subrange(dot + 1 as int, to as int));
        lemma_pow10_increases((to - (dot + 1)) as nat, 6);
        assert(spec_pow10(6) == 1000000) by {
            reveal_with_fuel(spec_pow10, 7);
        }
        lemma_pow10_increases((6 - (to - (dot + 1))) as nat, 6);
    }
    let scale = pow10(6 - (to - (dot + 1)));
    proof {
        assert(spec_pow10((to - (dot + 1)) as nat) * spec_pow10((6 - (to - (dot + 1))) as nat)
            == 1000000) by {
            lemma_pow10_mul((to - (dot + 1)) as nat, (6 - (to - (dot + 1))) as nat);
            assert(spec_pow10(6) == 1000000) by {
                reveal_with_fuel(spec_pow10, 7);
            }
        }
        assert((fp as int) * (scale as int) < 1000000) by (nonlinear_arith)
            requires
                0 <= fp as int && (fp as int) < spec_pow10((to - (dot + 1)) as nat),
                scale as int == spec_pow10((6 - (to - (dot + 1))) as nat),
                spec_pow10((to - (dot + 1)) as nat) * spec_pow10(
                    (6 - (to - (dot + 1))) as nat,
                ) == 1000000,
                scale >= 1,
        ;
        assert((fp as int) * (scale as int) >= 0) by (nonlinear_arith)
            requires
                0 <= fp as int && 0 <= scale as int,
        ;
        assert(spec_pow10((dot - start) as nat) <= 1000000) by {
            lemma_pow10_increases((dot - start) as nat, 6);
            assert(spec_pow10(6) == 1000000) by {
                reveal_with_fuel(spec_pow10, 7);
            }
        }
    }
    let magnitude = ip * 1000000 + fp * scale;
    if neg {
        Some(-(magnitude as i64))
    } else {
        Some(magnitude as i64)
    }
}

/// Ten-powers multiply by adding exponents.
proof fn lemma_pow10_mul(a: nat, b: nat)
    ensures
        spec_pow10(a) * spec_pow10(b) == spec_pow10(a + b),
    decreases a,
{
    if a == 0 {
    } else {
        lemma_pow10_mul((a - 1) as nat, b);
        assert(spec_pow10(a) * spec_pow10(b) == 10 * (spec_pow10((a - 1) as nat) * spec_pow10(b)))
            by (nonlinear_arith)
            requires
                spec_pow10(a) == 10 * spec_pow10((a - 1) as nat),
        ;
        assert(spec_pow10(a + b) == 10 * spec_pow10((a - 1) as nat + b));
    }
}

/// The end of the token starting at `from`: the first space in
/// `[from, to)`, or `to` when the token runs to the end.
#[verifier::loop_isolation(false)]
fn next_token_end(data: &[u8], from: usize, to: usize) -> (r: usize)
    requires
        from <= to && to <= data@.len(),
    ensures
        from <= r <= to,
        r as int == spec_find_in(data@, 32, from as int, to as int),
{
    let mut i = from;
    while i < to && data[i] != 32
        invariant
            from <= i <= to,
            forall|j: int| from <= j < i ==> data@[j] != 32,
        decreases to - i,
    {
        i = i + 1;
    }
    proof {
        lemma_find_in_unique(data@, 32, from as int, to as int, i as int);
    }
    i
}

/// The coordinates of one vertex record: the line is `v` and three
/// coordinate tokens separated by single spaces.  A line of any other
/// shape yields nothing.
pub open spec fn spec_vertex_line(s: Seq<u8>, from: int, eol: int) -> Option<Vector3> {
    if !(eol - from >= 2 && s[from] == 118 && s[from + 1] == 32) {
        None
    } else {
        let t1 = from + 2;
        let e1 = spec_find_in(s, 32, t1, eol);
        if !(e1 < eol) {
            None
        } else {
            let t2 = e1 + 1;
            let e2 = spec_find_in(s, 32, t2, eol);
            if !(e2 < eol) {
                None
            } else {
                let t3 = e2 + 1;
                let e3 = spec_find_in(s, 32, t3, eol);
                if e3 != eol {
                    None
                } else {
                    match (spec_parse_fixed(s, t1, e1), spec_parse_fixed(s, t2, e2),
                    spec_parse_fixed(s, t3, e3)) {
                        (Some(x), Some(y), Some(z)) => Some(Vector3 { x, y, z }),
                        _ => None,
                    }
                }
            }
        }
    }
}

/// The coordinates of every vertex record of the data from position
/// `from` on, line by line, in record order.
pub open spec fn spec_vertex_records(s: Seq<u8>, from: int) -> Seq<Vector3>
    decreases s.len() - from,
{
    if !(0 <= from < s.len()) {
        Seq::empty()
    } else {
        let eol = spec_find_in(s, 10, from, s.len() as int);
        if !(from <= eol <= s.len()) {
            Seq::empty()
        } else {
            let next = if eol + 1 <= s.len() {
                eol + 1
            } else {
                s.len() as int
            };
            let rest = spec_vertex_records(s, next);
            match spec_vertex_line(s, from, eol) {
                Some(p) => seq![p] + rest,
                None => rest,
            }
        }
    }
}


/// The 1-based indices of the tokens from position `t` to `eol`: digit
/// runs of at most nine digits separated by single spaces.  Any other
/// shape yields nothing.
pub open spec fn spec_index_tokens(s: Seq<u8>, t: int, eol: int) -> Option<Seq<int>>
    decreases eol - t,
{
    if !(0 <= t && t <= eol && eol <= s.len()) {
        None
    } else if t == eol {
        Some(Seq::empty())
    } else {
        let e = spec_find_in(s, 32, t, eol);
        if !(t <= e <= eol) {
            None
        } else if e == t || e - t > 9 || !spec_all_digits(s.subrange(t, e)) {
            None
        } else {
            let v = spec_digits_value(s.subrange(t, e));
            let next = if e < eol {
                e + 1
            } else {
                eol
            };
            match spec_index_tokens(s, next, eol) {
                Some(restv) => Some(seq![v] + restv),
                None => None,
            }
        }
    }
}

/// The index list of one face record: the line is `f` and index tokens.
pub open spec fn spec_face_line(s: Seq<u8>, from: int, eol: int) -> Option<Seq<int>> {
    if !(eol - from >= 2 && s[from] == 102 && s[from + 1] == 32) {
        None
    } else {
        spec_index_tokens(s, from + 2, eol)
    }
}

/// The index lists of every face record with exactly `arity` indices, from
/// position `from` on, line by line, in record order.
pub open spec fn spec_face_records(s: Seq<u8>, from: int, arity: int) -> Seq<Seq<int>>
    decreases s.len() - from,
{
    if !(0 <= from < s.len()) {
        Seq::empty()
    } else {
        let eol = spec_find_in(s, 10, from, s.len() as int);
        if !(from <= eol <= s.len()) {
            Seq::empty()
        } else {
            let next = if eol + 1 <= s.len() {
                eol + 1
            } else {
                s.len() as int
            };
            let rest = spec_face_records(s, next, arity);
            match spec_face_line(s, from, eol) {
                Some(ix) => if ix.len() == arity {
                    seq![ix] + rest
                } else {
                    rest
                },
                None => rest,
            }
        }
    }
}

/// Every index of every listed record lies in `[1, nverts]`.
pub open spec fn spec_records_in_range(recs: Seq<Seq<int>>, nverts: int) -> bool {
    forall|k: int, t: int|
        0 <= k < recs.len() && 0 <= t < (#[trigger] recs[k]).len() ==> 1 <= #[trigger] recs[k][t]
            <= nverts
}

/// The triangles of the three-index records over the vertex list.
pub open spec fn spec_tri_faces(recs: Seq<Seq<int>>, vl: Seq<VertexPtr>) -> Seq<Face> {
    Seq::new(
        recs.len(),
        |k: int| Face { a: vl[recs[k][0] - 1], b: vl[recs[k][1] - 1], c: vl[recs[k][2] - 1] },
    )
}

/// The triangles of the four-index records over the vertex list: each
/// record splits into two triangles sharing its first-to-third diagonal.
pub open spec fn spec_quad_faces(recs: Seq<Seq<int>>, vl: Seq<VertexPtr>) -> Seq<Face> {
    Seq::new(
        2 * recs.len(),
        |k: int|
            if k % 2 == 0 {
                Face {
                    a: vl[recs[k / 2][0] - 1],
                    b: vl[recs[k / 2][1] - 1],
                    c: vl[recs[k / 2][2] - 1],
                }
            } else {
                Face {
                    a: vl[recs[k / 2][0] - 1],
                    b: vl[recs[k / 2][2] - 1],
                    c: vl[recs[k / 2][3] - 1],
                }
            },
    )
}

/// Parse the index tokens of one face record line; exactly the lines of
/// the grammar succeed, with the denoted indices.
#[verifier::loop_isolation(false)]
fn parse_face_record(data: &[u8], from: usize, eol: usize) -> (r: Option<Vec<u64>>)
    requires
        from <= eol && eol <= data@.len(),
    ensures
        (r is Some) == (spec_face_line(data@, from as int, eol as int) is Some),
        r matches Some(v) ==> {
            let ix = spec_face_line(data@, from as int, eol as int).unwrap();
            v@.len() == ix.len() && forall|k: int|
                0 <= k < v@.len() ==> #[trigger] v@[k] as int == ix[k]
        },
{
    if !(eol - from >= 2 && data[from] == 102 && data[from + 1] == 32) {
        return None;
    }
    let mut idxs: Vec<u64> = Vec::new();
    let mut t = from + 2;
    let ghost t0 = from + 2 as int;
    while t < eol
        invariant
            from + 2 <= t <= eol,
            eol <= data@.len(),
            spec_index_tokens(data@, t0 as int, eol as int) == (match spec_index_tokens(
                data@,
                t as int,
                eol as int,
            ) {
                Some(restv) => Some(idxs@.map_values(|x: u64| x as int) + restv),
                None => None::<Seq<int>>,
            }),
        decreases eol - t,
    {
        let e = next_token_end(data, t, eol);
        if e == t || e - t > 9 {
            return None;
        }
        match parse_digits(data, t, e) {
            Some(v) => {
                let ghost before = idxs@;
                idxs.push(v);
                let tn = if e < eol {
                    e + 1
                } else {
                    eol
                };
                proof {
                    assert(idxs@.map_values(|x: u64| x as int) =~= before.map_values(
                        |x: u64| x as int,
                    ).push(v as int));
                    assert(spec_index_tokens(data@, t as int, eol as int) == (
                    match spec_index_tokens(data@, tn as int, eol as int) {
                        Some(restv) => Some(seq![v as int] + restv),
                        None => None::<Seq<int>>,
                    }));
                    if spec_index_tokens(data@, tn as int, eol as int) is Some {
                        assert(before.map_values(|x: u64| x as int) + (seq![v as int]
                            + spec_index_tokens(data@, tn as int, eol as int).unwrap())
                            =~= idxs@.map_values(|x: u64| x as int) + spec_index_tokens(
                            data@,
                            tn as int,
                            eol as int,
                        ).unwrap());
                    }
                }
                t = tn;
            },
            None => {
                return None;
            },
        }
    }
    proof {
        assert(spec_index_tokens(data@, t as int, eol as int) == Some(Seq::<int>::empty()));
        assert(idxs@.map_values(|x: u64| x as int) + Seq::<int>::empty() =~= idxs@.map_values(
            |x: u64| x as int,
        ));
    }
    Some(idxs)
}


impl Mesh {
    /// Read every vertex record of `data` into the store and this mesh, in
    /// record order, and return the new vertices as a list for the face
    /// readers to index.  Lines that are not vertex records are passed
    /// over.  Fails with [`Error::MalformedInput`] exactly when some
    /// record's coordinate exceeds the engine's coordinate range or the
    /// store cannot hold all the records.
    #[verifier::loop_isolation(false)]
    #[verifier::rlimit(100)]
    #[verifier::spinoff_prover]
    pub fn read_vertices(&mut self, store: &mut Store, data: &[u8]) -> (r: Result<
        Vec<VertexPtr>,
        Error,
    >)
        requires
            old(store).wf(),
            old(self).wf(),
            old(self).valid_in(*old(store)),
        ensures
            final(store).wf(),
            final(self).wf(),
            final(self).valid_in(*final(store)),
            final(self).faces@ == old(self).faces@,
            final(self).edges@ == old(self).edges@,
            final(store).faces@ == old(store).faces@,
            final(store).faces_alive@ == old(store).faces_alive@,
            final(store).edges@ == old(store).edges@,
            old(store).vertices@.len() <= final(store).vertices@.len(),
            r matches Err(e) ==> e == Error::MalformedInput,
            (r is Err) == ((exists|k: int|
                0 <= k < spec_vertex_records(data@, 0).len() && !(#[trigger] spec_vertex_records(
                    data@,
                    0,
                )[k]).in_range()) || old(store).vertices@.len() + spec_vertex_records(
                data@,
                0,
            ).len() > VERTEX_CAP),
            r matches Ok(list) ==> list@.len() == spec_vertex_records(data@, 0).len() && final(store).vertices@.len() == old(store).vertices@.len() + list@.len() && (forall|k: int|
                0 <= k < list@.len() ==> (#[trigger] list@[k]).idx as int == old(store).vertices@.len() + k && final(store).valid_v(list@[k]) && final(store).vertices@[list@[k].idx as int].point == spec_vertex_records(data@, 0)[k]) && final(self).vertices@ == old(self).vertices@ + list@,
    {
        let ghost recs = spec_vertex_records(data@, 0);
        let ghost nv0 = old(store).vertices@.len() as int;
        let mut out: Vec<VertexPtr> = Vec::new();
        let ghost mut pts: Seq<Vector3> = Seq::empty();
        let mut i: usize = 0;
        let n = data.len();
        while i < n
            invariant
                store.wf(),
                self.wf(),
                self.valid_in(*store),
                self.faces@ == old(self).faces@,
                self.edges@ == old(self).edges@,
                store.faces@ == old(store).faces@,
                store.faces_alive@ == old(store).faces_alive@,
                store.edges@ == old(store).edges@,
                n == data@.len(),
                i <= n,
                pts.len() == out@.len(),
                store.vertices@.len() == nv0 + out@.len(),
                pts + spec_vertex_records(data@, i as int) == recs,
                forall|k: int|
                    0 <= k < out@.len() ==> (#[trigger] out@[k]).idx as int == nv0 + k
                        && store.valid_v(out@[k]) && store.vertices@[out@[k].idx as int].point
                        == pts[k] && pts[k].in_range(),
                self.vertices@ == old(self).vertices@ + out@,
            decreases n - i,
        {
            // find the end of this line
            let mut eol = i;
            while eol < n && data[eol] != 10
                invariant
                    i <= eol <= n,
                    n == data@.len(),
                    forall|j: int| i <= j < eol ==> data@[j] != 10,
                decreases n - eol,
            {
                eol = eol + 1;
            }
            proof {
                lemma_find_in_unique(data@, 10, i as int, n as int, eol as int);
            }
            let ghost rest = spec_vertex_records(
                data@,
                if eol + 1 <= n {
                    eol + 1 as int
                } else {
                    n as int
                },
            );
            let ghost here = spec_vertex_line(data@, i as int, eol as int);
            proof {
                assert(spec_vertex_records(data@, i as int) == match here {
                    Some(p) => seq![p] + rest,
                    None => rest,
                });
            }
            let mut line_point: Option<Vector3> = None;
            if eol - i >= 2 && data[i] == 118 && data[i + 1] == 32 {
                // "v " record: three coordinates separated by one space
                let t1 = i + 2;
                let e1 = next_token_end(data, t1, eol);
                if e1 < eol {
                    let t2 = e1 + 1;
                    let e2 = next_token_end(data, t2, eol);
                    if e2 < eol {
                        let t3 = e2 + 1;
                        let e3 = next_token_end(data, t3, eol);
                        if e3 == eol {
                            let x = parse_fixed(data, t1, e1);
                            let y = parse_fixed(data, t2, e2);
                            let z = parse_fixed(data, t3, e3);
                            match (x, y, z) {
                                (Some(xv), Some(yv), Some(zv)) => {
                                    line_point = Some(Vector3::new(xv, yv, zv));
                                },
                                _ => {},
                            }
                        }
                    }
                }
            }
            proof {
                assert(line_point == here);
            }
            match line_point {
                Some(p) => {
                    proof {
                        assert(recs[pts.len() as int] == p) by {
                            assert(spec_vertex_records(data@, i as int) == seq![p] + rest);
                        }
                    }
                    if p.x > COORD_LIMIT || p.x < -COORD_LIMIT || p.y > COORD_LIMIT || p.y
                        < -COORD_LIMIT || p.z > COORD_LIMIT || p.z < -COORD_LIMIT {
                        proof {
                            assert(!recs[pts.len() as int].in_range());
                        }
                        return Err(Error::MalformedInput);
                    }
                    if store.n_vertices() >= (VERTEX_CAP as usize) {
                        proof {
                            assert(spec_vertex_records(data@, i as int).len() >= 1);
                            assert(recs.len() >= pts.len() + 1);
                        }
                        return Err(Error::MalformedInput);
                    }
                    let ghost s0 = *store;
                    let vp = Vertex::new(store, p);
                    proof {
                        assert forall|ii: int|
                            0 <= ii < self.vertices@.len() implies store.valid_v(
                            #[trigger] self.vertices@[ii],
                        ) by {
                            assert(s0.valid_v(self.vertices@[ii]));
                        }
                        assert forall|k: int|
                            0 <= k < out@.len() implies store.valid_v(#[trigger] out@[k])
                            && store.vertices@[out@[k].idx as int].point == pts[k] by {
                            assert(s0.valid_v(out@[k]));
                            assert(store.vertices@[out@[k].idx as int] == s0.vertices@[out@[k].idx
                                as int]);
                        }
                        assert(!self.vertices@.contains(vp)) by {
                            if self.vertices@.contains(vp) {
                                let j = choose|j: int|
                                    0 <= j < self.vertices@.len() && self.vertices@[j] == vp;
                                if j < old(self).vertices@.len() {
                                    assert(old(self).vertices@[j] == vp);
                                    assert(old(self).vertices@.contains(vp));
                                    let j2 = choose|j2: int|
                                        0 <= j2 < old(self).vertices@.len() && old(self).vertices@[j2] == vp;
                                    assert(old(store).valid_v(old(self).vertices@[j2]));
                                } else {
                                    assert(out@[j - old(self).vertices@.len()] == vp);
                                }
                            }
                        }
                    }
                    self.insert_vertex(vp);
                    out.push(vp);
                    proof {
                        pts = pts.push(p);
                        assert(self.vertices@ =~= old(self).vertices@ + out@);
                        assert(pts + rest =~= recs);
                    }
                },
                None => {},
            }
            i = if eol < n {
                eol + 1
            } else {
                n
            };
            proof {
                if i == n && eol == n {
                    assert(spec_vertex_records(data@, n as int) =~= Seq::<Vector3>::empty());
                    assert(rest =~= Seq::<Vector3>::empty());
                    assert(pts + spec_vertex_records(data@, i as int) =~= recs);
                }
            }
        }
        proof {
            assert(spec_vertex_records(data@, n as int) =~= Seq::<Vector3>::empty());
            assert(pts =~= recs);
            assert forall|k: int|
                0 <= k < recs.len() implies (#[trigger] recs[k]).in_range() by {
                assert(recs[k] == pts[k]);
                assert(out@[k].idx as int == nv0 + k);
            }
        }
        Ok(out)
    }

    /// Read every three-index face record of `data`: construct the face on
    /// the listed vertices, 1-based into `vertices`, and insert it here.
    /// Lines that are not such records are passed over.  Fails with
    /// [`Error::MalformedInput`] exactly when some record lists an index
    /// out of range.
    #[verifier::loop_isolation(false)]
    pub fn read_tris(&mut self, store: &mut Store, data: &[u8], vertices: &Vec<VertexPtr>) -> (r:
        Result<(), Error>)
        requires
            old(store).wf(),
            old(self).wf(),
            old(self).valid_in(*old(store)),
            forall|k: int| 0 <= k < vertices@.len() ==> old(store).valid_v(#[trigger] vertices@[k]),
        ensures
            final(store).wf(),
            final(self).wf(),
            final(self).valid_in(*final(store)),
            final(self).vertices@ == old(self).vertices@,
            final(self).edges@ == old(self).edges@,
            final(store).vertices@.len() == old(store).vertices@.len(),
            final(store).edges@ == old(store).edges@,
            r matches Err(e) ==> e == Error::MalformedInput,
            (r is Err) == !spec_records_in_range(
                spec_face_records(data@, 0, 3),
                vertices@.len() as int,
            ),
            r is Ok ==> final(store).faces@ == old(store).faces@ + spec_tri_faces(
                spec_face_records(data@, 0, 3),
                vertices@,
            ),
            r is Ok ==> final(self).faces@ == old(self).faces@ + Seq::new(
                spec_face_records(data@, 0, 3).len() as nat,
                |k: int| crate::spec_fptr(old(store).faces@.len() + k),
            ),
            r is Ok ==> forall|k: int|
                old(store).faces@.len() <= k < final(store).faces@.len()
                    ==> final(store).spec_face_live(#[trigger] crate::spec_fptr(k)),
    {
        self.read_faces(store, data, vertices, false)
    }

    /// Read every four-index face record of `data`: split it into the two
    /// triangles sharing the diagonal from its first to its third vertex
    /// and insert both.  Lines that are not such records are passed over.
    /// Fails with [`Error::MalformedInput`] exactly when some record lists
    /// an index out of range.
    #[verifier::loop_isolation(false)]
    pub fn read_quads(&mut self, store: &mut Store, data: &[u8], vertices: &Vec<VertexPtr>) -> (r:
        Result<(), Error>)
        requires
            old(store).wf(),
            old(self).wf(),
            old(self).valid_in(*old(store)),
            forall|k: int| 0 <= k < vertices@.len() ==> old(store).valid_v(#[trigger] vertices@[k]),
        ensures
            final(store).wf(),
            final(self).wf(),
            final(self).valid_in(*final(store)),
            final(self).vertices@ == old(self).vertices@,
            final(self).edges@ == old(self).edges@,
            final(store).vertices@.len() == old(store).vertices@.len(),
            final(store).edges@ == old(store).edges@,
            r matches Err(e) ==> e == Error::MalformedInput,
            (r is Err) == !spec_records_in_range(
                spec_face_records(data@, 0, 4),
                vertices@.len() as int,
            ),
            r is Ok ==> final(store).faces@ == old(store).faces@ + spec_quad_faces(
                spec_face_records(data@, 0, 4),
                vertices@,
            ),
            r is Ok ==> final(self).faces@ == old(self).faces@ + Seq::new(
                (2 * spec_face_records(data@, 0, 4).len()) as nat,
                |k: int| crate::spec_fptr(old(store).faces@.len() + k),
            ),
            r is Ok ==> forall|k: int|
                old(store).faces@.len() <= k < final(store).faces@.len()
                    ==> final(store).spec_face_live(#[trigger] crate::spec_fptr(k)),
    {
        self.read_faces(store, data, vertices, true)
    }

    /// Shared reader for face records with exactly three (`quads` false) or
    /// exactly four (`quads` true) indices.
    #[verifier::loop_isolation(false)]
    #[verifier::rlimit(100)]
    #[verifier::spinoff_prover]
    fn read_faces(
        &mut self,
        store: &mut Store,
        data: &[u8],
        vertices: &Vec<VertexPtr>,
        quads: bool,
    ) -> (r: Result<(), Error>)
        requires
            old(store).wf(),
            old(self).wf(),
            old(self).valid_in(*old(store)),
            forall|k: int| 0 <= k < vertices@.len() ==> old(store).valid_v(#[trigger] vertices@[k]),
        ensures
            final(store).wf(),
            final(self).wf(),
            final(self).valid_in(*final(store)),
            final(self).vertices@ == old(self).vertices@,
            final(self).edges@ == old(self).edges@,
            final(store).vertices@.len() == old(store).vertices@.len(),
            final(store).edges@ == old(store).edges@,
            r matches Err(e) ==> e == Error::MalformedInput,
            (r is Err) == !spec_records_in_range(
                spec_face_records(data@, 0, if quads { 4int } else { 3int }),
                vertices@.len() as int,
            ),
            r is Ok ==> final(store).faces@ == old(store).faces@ + (if quads {
                spec_quad_faces(spec_face_records(data@, 0, 4), vertices@)
            } else {
                spec_tri_faces(spec_face_records(data@, 0, 3), vertices@)
            }),
            r is Ok ==> final(self).faces@ == old(self).faces@ + Seq::new(
                (if quads {
                    2 * spec_face_records(data@, 0, 4).len()
                } else {
                    spec_face_records(data@, 0, 3).len()
                }) as nat,
                |k: int| crate::spec_fptr(old(store).faces@.len() + k),
            ),
            r is Ok ==> forall|k: int|
                old(store).faces@.len() <= k < final(store).faces@.len()
                    ==> final(store).spec_face_live(#[trigger] crate::spec_fptr(k)),
    {
        let ghost arity: int = if quads { 4int } else { 3int };
        let ghost recs = spec_face_records(data@, 0, arity);
        let ghost nf0 = old(store).faces@.len() as int;
        let ghost nverts = vertices@.len() as int;
        let arity_x: usize = if quads { 4 } else { 3 };
        let ghost mut rdone: Seq<Seq<int>> = Seq::empty();
        let mut i: usize = 0;
        let n = data.len();
        while i < n
            invariant
                store.wf(),
                self.wf(),
                self.valid_in(*store),
                self.vertices@ == old(self).vertices@,
                self.edges@ == old(self).edges@,
                store.vertices@.len() == old(store).vertices@.len(),
                store.edges@ == old(store).edges@,
                store.edges_alive@ == old(store).edges_alive@,
                forall|k: int| 0 <= k < vertices@.len() ==> store.valid_v(#[trigger] vertices@[k]),
                n == data@.len(),
                i <= n,
                arity == if quads { 4int } else { 3int },
                arity_x as int == arity,
                rdone + spec_face_records(data@, i as int, arity) == recs,
                spec_records_in_range(rdone, nverts),
                store.faces@ == old(store).faces@ + (if quads {
                    spec_quad_faces(rdone, vertices@)
                } else {
                    spec_tri_faces(rdone, vertices@)
                }),
                self.faces@ == old(self).faces@ + Seq::new(
                    (store.faces@.len() - nf0) as nat,
                    |k: int| crate::spec_fptr(nf0 + k),
                ),
                forall|k: int|
                    nf0 <= k < store.faces@.len() ==> store.spec_face_live(
                        #[trigger] crate::spec_fptr(k),
                    ),
            decreases n - i,
        {
            // find the end of this line
            let mut eol = i;
            while eol < n && data[eol] != 10
                invariant
                    i <= eol <= n,
                    n == data@.len(),
                    forall|j: int| i <= j < eol ==> data@[j] != 10,
                decreases n - eol,
            {
                eol = eol + 1;
            }
            proof {
                lemma_find_in_unique(data@, 10, i as int, n as int, eol as int);
            }
            let ghost rest = spec_face_records(
                data@,
                if eol + 1 <= n {
                    eol + 1 as int
                } else {
                    n as int
                },
                arity,
            );
            let ghost here = spec_face_line(data@, i as int, eol as int);
            proof {
                assert(spec_face_records(data@, i as int, arity) == match here {
                    Some(ix) => if ix.len() == arity {
                        seq![ix] + rest
                    } else {
                        rest
                    },
                    None => rest,
                });
            }
            match parse_face_record(data, i, eol) {
                Some(idxs) => {
                    if idxs.len() == arity_x {
                        let ghost ix = here.unwrap();
                        proof {
                            assert(recs[rdone.len() as int] == ix) by {
                                assert(spec_face_records(data@, i as int, arity) == seq![ix]
                                    + rest);
                            }
                            assert(idxs@.map_values(|x: u64| x as int) =~= ix) by {
                                assert(forall|k: int|
                                    0 <= k < idxs@.len() ==> #[trigger] idxs@[k] as int == ix[k]);
                            }
                        }
                        // every listed index must name a vertex
                        let mut t: usize = 0;
                        while t < idxs.len()
                            invariant
                                t <= idxs@.len(),
                                idxs@.len() == ix.len(),
                                forall|k: int| 0 <= k < idxs@.len() ==> #[trigger] idxs@[k] as int == ix[k],
                                nverts == vertices@.len(),
                                forall|k: int| 0 <= k < t ==> 1 <= #[trigger] ix[k] <= nverts,
                            decreases idxs@.len() - t,
                        {
                            if idxs[t] == 0 || idxs[t] > vertices.len() as u64 {
                                proof {
                                    assert(!(1 <= ix[t as int] <= nverts));
                                    assert(!spec_records_in_range(recs, nverts)) by {
                                        assert(recs[rdone.len() as int] == ix);
                                    }
                                }
                                return Err(Error::MalformedInput);
                            }
                            t = t + 1;
                        }
                        let nv_x = vertices.len();
                        proof {
                            assert(nv_x as int == nverts);
                        }
                        let i0 = (idxs[0] - 1) as usize;
                        let i1 = (idxs[1] - 1) as usize;
                        let i2x = (idxs[2] - 1) as usize;
                        proof {
                            assert(idxs@[0] as int == ix[0]);
                            assert(idxs@[1] as int == ix[1]);
                            assert(idxs@[2] as int == ix[2]);
                            assert(i0 as int == ix[0] - 1);
                            assert(i1 as int == ix[1] - 1);
                            assert(i2x as int == ix[2] - 1);
                        }
                        let va = vertices[i0];
                        let vb = vertices[i1];
                        let vc = vertices[i2x];
                        let ghost sx = *store;
                        let nfb = store.faces.len();
                        let f1 = Face::new(store, [va, vb, vc]);
                        proof {
                            lemma_mesh_still_valid(*self, sx, *store);
                            assert(f1.idx == nfb && store.valid_f(f1));
                            assert(!self.faces@.contains(f1)) by {
                                if self.faces@.contains(f1) {
                                    let j = choose|j: int|
                                        0 <= j < self.faces@.len() && self.faces@[j] == f1;
                                    if j < old(self).faces@.len() {
                                        assert(old(self).faces@.contains(f1));
                                        let j2 = choose|j2: int|
                                            0 <= j2 < old(self).faces@.len() && old(
                                                self,
                                            ).faces@[j2] == f1;
                                        assert(old(store).valid_f(old(self).faces@[j2]));
                                    } else {
                                        assert(self.faces@[j] == crate::spec_fptr(
                                            nf0 + (j - old(self).faces@.len()),
                                        ));
                                    }
                                }
                            }
                        }
                        self.insert_face(f1);
                        if quads {
                            let i3 = (idxs[3] - 1) as usize;
                            proof {
                                assert(idxs@[3] as int == ix[3]);
                                assert(i3 as int == ix[3] - 1);
                            }
                            let vd = vertices[i3];
                            let ghost sy = *store;
                            let nfc = store.faces.len();
                            let f2 = Face::new(store, [va, vc, vd]);
                            proof {
                                lemma_mesh_still_valid(*self, sy, *store);
                                assert(f2.idx == nfc && store.valid_f(f2));
                                assert(!self.faces@.contains(f2)) by {
                                    if self.faces@.contains(f2) {
                                        let j = choose|j: int|
                                            0 <= j < self.faces@.len() && self.faces@[j] == f2;
                                        if j < old(self).faces@.len() {
                                            assert(old(self).faces@.contains(f2));
                                            let j2 = choose|j2: int|
                                                0 <= j2 < old(self).faces@.len() && old(
                                                    self,
                                                ).faces@[j2] == f2;
                                            assert(old(store).valid_f(old(self).faces@[j2]));
                                        } else if self.faces@[j] == f1 {
                                        } else {
                                            assert(self.faces@[j] == crate::spec_fptr(
                                                nf0 + (j - old(self).faces@.len()),
                                            ));
                                        }
                                    }
                                }
                            }
                            self.insert_face(f2);
                        }
                        proof {
                            let rb = rdone;
                            rdone = rdone.push(ix);
                            assert(rdone.drop_last() =~= rb);
                            assert(rdone.last() == ix);
                            assert(idxs@[0] as int == ix[0] && 1 <= ix[0] <= nverts);
                            assert(idxs@[1] as int == ix[1] && 1 <= ix[1] <= nverts);
                            assert(idxs@[2] as int == ix[2] && 1 <= ix[2] <= nverts);
                            assert(va == vertices@[ix[0] - 1]);
                            assert(vb == vertices@[ix[1] - 1]);
                            assert(vc == vertices@[ix[2] - 1]);
                            if quads {
                                assert(idxs@[3] as int == ix[3] && 1 <= ix[3] <= nverts);
                                assert(spec_quad_faces(rdone, vertices@) =~= spec_quad_faces(
                                    rdone.drop_last(),
                                    vertices@,
                                ) + seq![
                                    Face { a: va, b: vb, c: vc },
                                    Face {
                                        a: va,
                                        b: vc,
                                        c: vertices@[ix[3] - 1],
                                    },
                                ]);
                                assert(store.faces@ =~= old(store).faces@ + spec_quad_faces(
                                    rdone,
                                    vertices@,
                                ));
                            } else {
                                assert(spec_tri_faces(rdone, vertices@) =~= spec_tri_faces(
                                    rdone.drop_last(),
                                    vertices@,
                                ) + seq![Face { a: va, b: vb, c: vc }]);
                                assert(store.faces@ =~= old(store).faces@ + spec_tri_faces(
                                    rdone,
                                    vertices@,
                                ));
                            }
                            assert(rdone.drop_last() + (seq![ix] + rest) =~= rdone + rest);
                            assert(self.faces@ =~= old(self).faces@ + Seq::new(
                                (store.faces@.len() - nf0) as nat,
                                |k: int| crate::spec_fptr(nf0 + k),
                            ));
                        }
                    }
                },
                None => {},
            }
            i = if eol < n {
                eol + 1
            } else {
                n
            };
            proof {
                if i == n && eol == n {
                    assert(spec_face_records(data@, n as int, arity) =~= Seq::<Seq<int>>::empty());
                    assert(rest =~= Seq::<Seq<int>>::empty());
                    assert(rdone + spec_face_records(data@, i as int, arity) =~= recs);
                }
            }
        }
        proof {
            assert(spec_face_records(data@, n as int, arity) =~= Seq::<Seq<int>>::empty());
            assert(rdone =~= recs);
        }
        Ok(())
    }
}

/// The decimal digits of `n`, least significant first; empty for zero.
pub open spec fn spec_digits_lsf(n: nat) -> Seq<u8>
    decreases n,
{
    if n == 0 {
        Seq::empty()
    } else {
        seq![(48 + n % 10) as u8] + spec_digits_lsf(n / 10)
    }
}

/// The decimal rendering of `n`, most significant digit first.
pub open spec fn spec_render_nat(n: nat) -> Seq<u8> {
    if n == 0 {
        seq![48u8]
    } else {
        spec_digits_lsf(n).reverse()
    }
}

/// Append the decimal digits of `n`, most significant first.
#[verifier::loop_isolation(false)]
fn push_number(out: &mut Vec<u8>, n: u64)
    ensures
        final(out)@ == old(out)@ + spec_render_nat(n as nat),
{
    let mut tmp: Vec<u8> = Vec::new();
    let mut m = n;
    while m > 0
        invariant
            spec_digits_lsf(n as nat) == tmp@ + spec_digits_lsf(m as nat),
            m == 0 ==> tmp@ == spec_digits_lsf(n as nat),
        decreases m,
    {
        let ghost t0 = tmp@;
        tmp.push(48 + ((m % 10) as u8));
        proof {
            assert(spec_digits_lsf(m as nat) == seq![(48 + m as nat % 10) as u8]
                + spec_digits_lsf((m / 10) as nat));
            assert(t0 + (seq![(48 + m as nat % 10) as u8] + spec_digits_lsf((m / 10) as nat))
                =~= tmp@ + spec_digits_lsf((m / 10) as nat));
        }
        m = m / 10;
    }
    proof {
        assert(tmp@ + spec_digits_lsf(0) =~= tmp@);
        assert(tmp@ == spec_digits_lsf(n as nat));
    }
    if tmp.len() == 0 {
        proof {
            assert(n as nat != 0 ==> spec_digits_lsf(n as nat).len() >= 1);
            assert(n == 0);
        }
        out.push(48);
        proof {
            assert(out@ =~= old(out)@ + spec_render_nat(0));
        }
        return ;
    }
    proof {
        assert(n as nat != 0) by {
            if n == 0 {
                assert(spec_digits_lsf(0) =~= Seq::<u8>::empty());
            }
        }
    }
    let mut i = tmp.len();
    while i > 0
        invariant
            i <= tmp@.len(),
            out@ == old(out)@ + tmp@.subrange(i as int, tmp@.len() as int).reverse(),
        decreases i,
    {
        i = i - 1;
        out.push(tmp[i]);
        proof {
            assert(out@ =~= old(out)@ + tmp@.subrange(i as int, tmp@.len() as int).reverse()) by {
                let a = tmp@.subrange(i as int, tmp@.len() as int).reverse();
                let b = tmp@.subrange(i as int + 1, tmp@.len() as int).reverse();
                assert(a =~= b.push(tmp@[i as int])) by {
                    assert forall|k: int| 0 <= k < a.len() implies a[k] == b.push(
                        tmp@[i as int],
                    )[k] by {
                        if k < a.len() - 1 {
                            assert(a[k] == tmp@.subrange(i as int, tmp@.len() as int)[a.len() - 1
                                - k]);
                            assert(b[k] == tmp@.subrange(
                                i as int + 1,
                                tmp@.len() as int,
                            )[b.len() - 1 - k]);
                        }
                    }
                }
            }
        }
    }
    proof {
        assert(tmp@.subrange(0, tmp@.len() as int) =~= tmp@);
        assert(out@ == old(out)@ + tmp@.reverse());
    }
}

/// The six fraction digits of a fixed-point remainder, most significant
/// first.
pub open spec fn spec_render_frac6(f: nat) -> Seq<u8> {
    Seq::new(6, |k: int| (48 + (f as int / spec_pow10((5 - k) as nat)) % 10) as u8)
}

/// The text of one fixed-point coordinate: sign, integer part, decimal
/// point and exactly six fraction digits.
pub open spec fn spec_render_fixed(v: int) -> Seq<u8> {
    let m = if v < 0 {
        -v
    } else {
        v
    };
    (if v < 0 {
        seq![45u8]
    } else {
        Seq::empty()
    }) + spec_render_nat((m / 1000000) as nat) + seq![46u8] + spec_render_frac6(
        (m % 1000000) as nat,
    )
}

/// Append one coordinate as sign, integer part, decimal point and exactly
/// six fraction digits.
#[verifier::loop_isolation(false)]
fn push_fixed(out: &mut Vec<u8>, v: i64)
    requires
        -1000000000 <= v <= 1000000000,
    ensures
        final(out)@ == old(out)@ + spec_render_fixed(v as int),
{
    let m: u64 = if v < 0 {
        out.push(45);
        (-v) as u64
    } else {
        v as u64
    };
    push_number(out, m / 1000000);
    out.push(46);
    let ghost mark = out@;
    let frac = m % 1000000;
    let mut p: u64 = 100000;
    let mut k: usize = 0;
    proof {
        assert(spec_pow10(5) == 100000) by {
            reveal_with_fuel(spec_pow10, 7);
        }
        assert(spec_render_frac6(frac as nat).subrange(0, 0) =~= Seq::<u8>::empty());
    }
    while k < 6
        invariant
            k <= 6,
            p as int == if k < 6 {
                spec_pow10((5 - k) as nat)
            } else {
                0
            },
            frac < 1000000,
            out@ == mark + spec_render_frac6(frac as nat).subrange(0, k as int),
        decreases 6 - k,
    {
        proof {
            assert(spec_pow10((5 - k) as nat) >= 1) by {
                lemma_pow10_increases(0, (5 - k) as nat);
            }
        }
        out.push(48 + (((frac / p) % 10) as u8));
        k = k + 1;
        proof {
            assert(spec_pow10(5) == 100000) by {
                reveal_with_fuel(spec_pow10, 7);
            }
            if k < 6 {
                assert(spec_pow10((5 - (k - 1)) as nat) == 10 * spec_pow10((5 - k) as nat));
            }
            assert(out@ =~= mark + spec_render_frac6(frac as nat).subrange(0, k as int));
        }
        p = p / 10;
    }
    proof {
        assert(spec_render_frac6(frac as nat).subrange(0, 6) =~= spec_render_frac6(frac as nat));
        assert(out@ =~= old(out)@ + spec_render_fixed(v as int));
    }
}

/// The banner and vertex-section heading that open the text form.
pub open spec fn spec_header_bytes() -> Seq<u8> {
    seq![84u8, 101, 115, 116, 32, 69, 120, 112, 111, 114, 116, 10, 10, 35, 32, 86, 101, 114, 116,
        105, 99, 101, 115, 10,
    ]
}

/// The heading of the face section.
pub open spec fn spec_faces_banner() -> Seq<u8> {
    seq![35u8, 32, 70, 97, 99, 101, 115, 10]
}

/// One coordinate line.
pub open spec fn spec_vertex_line_bytes(p: Vector3) -> Seq<u8> {
    seq![118u8, 32] + spec_render_fixed(p.x as int) + seq![32u8] + spec_render_fixed(p.y as int)
        + seq![32u8] + spec_render_fixed(p.z as int) + seq![10u8]
}

/// One face line over three 1-based coordinate-line indices.
pub open spec fn spec_face_line_bytes(i1: int, i2: int, i3: int) -> Seq<u8> {
    seq![102u8, 32] + spec_render_nat(i1 as nat) + seq![32u8] + spec_render_nat(i2 as nat)
        + seq![32u8] + spec_render_nat(i3 as nat) + seq![10u8]
}

/// The first position of `v` in the list, from `from` on; the length when
/// absent.
pub open spec fn spec_find_ptr(assigned: Seq<VertexPtr>, v: VertexPtr, from: int) -> int
    decreases assigned.len() - from,
{
    if !(0 <= from < assigned.len()) {
        assigned.len() as int
    } else if assigned[from] == v {
        from
    } else {
        spec_find_ptr(assigned, v, from + 1)
    }
}

/// Rendering one face slot: its 1-based coordinate-line index, with the
/// coordinate line appended on first use.
pub open spec fn spec_slot_step(
    store: Store,
    v: VertexPtr,
    assigned: Seq<VertexPtr>,
    vout: Seq<u8>,
) -> (int, Seq<VertexPtr>, Seq<u8>) {
    let pos = spec_find_ptr(assigned, v, 0);
    if pos < assigned.len() {
        (pos + 1, assigned, vout)
    } else {
        (
            assigned.len() as int + 1,
            assigned.push(v),
            vout + spec_vertex_line_bytes(store.vertices@[v.idx as int].point),
        )
    }
}

/// Rendering one face: its three slots in winding order, then its face
/// line.
pub open spec fn spec_face_step(
    store: Store,
    fd: Face,
    assigned: Seq<VertexPtr>,
    vout: Seq<u8>,
    fout: Seq<u8>,
) -> (Seq<VertexPtr>, Seq<u8>, Seq<u8>) {
    let (i1, a1, v1) = spec_slot_step(store, fd.a, assigned, vout);
    let (i2, a2, v2) = spec_slot_step(store, fd.b, a1, v1);
    let (i3, a3, v3) = spec_slot_step(store, fd.c, a2, v2);
    (a3, v3, fout + spec_face_line_bytes(i1, i2, i3))
}

/// Rendering the face list in order, carrying the assigned vertices and
/// the two growing sections.
pub open spec fn spec_write_faces(
    store: Store,
    faces: Seq<FacePtr>,
    assigned: Seq<VertexPtr>,
    vout: Seq<u8>,
    fout: Seq<u8>,
) -> (Seq<VertexPtr>, Seq<u8>, Seq<u8>)
    decreases faces.len(),
{
    if faces.len() == 0 {
        (assigned, vout, fout)
    } else {
        let st = spec_face_step(store, store.faces@[faces[0].idx as int], assigned, vout, fout);
        spec_write_faces(store, faces.drop_first(), st.0, st.1, st.2)
    }
}

/// Rendering the vertices no face referenced, after the face pass.
pub open spec fn spec_write_leftover(
    store: Store,
    verts: Seq<VertexPtr>,
    assigned: Seq<VertexPtr>,
    vout: Seq<u8>,
) -> Seq<u8>
    decreases verts.len(),
{
    if verts.len() == 0 {
        vout
    } else {
        let vout1 = if spec_find_ptr(assigned, verts[0], 0) < assigned.len() {
            vout
        } else {
            vout + spec_vertex_line_bytes(store.vertices@[verts[0].idx as int].point)
        };
        spec_write_leftover(store, verts.drop_first(), assigned, vout1)
    }
}

/// The whole text form of a mesh.
pub open spec fn spec_render_mesh(store: Store, m: Mesh) -> Seq<u8> {
    let st = spec_write_faces(
        store,
        m.faces@,
        Seq::empty(),
        spec_header_bytes(),
        spec_faces_banner(),
    );
    spec_write_leftover(store, m.vertices@, st.0, st.1) + seq![10u8, 10u8] + st.2
}

/// Folding one more face renders it after the ones before it.
proof fn lemma_write_faces_push(
    store: Store,
    faces: Seq<FacePtr>,
    x: FacePtr,
    assigned: Seq<VertexPtr>,
    vout: Seq<u8>,
    fout: Seq<u8>,
)
    ensures
        ({
            let st = spec_write_faces(store, faces, assigned, vout, fout);
            let fs = spec_face_step(store, store.faces@[x.idx as int], st.0, st.1, st.2);
            let whole = spec_write_faces(store, faces.push(x), assigned, vout, fout);
            whole.0 == fs.0 && whole.1 == fs.1 && whole.2 == fs.2
        }),
    decreases faces.len(),
{
    if faces.len() == 0 {
        assert(faces.push(x)[0] == x);
        assert(faces.push(x).drop_first() =~= Seq::<FacePtr>::empty());
        let fs = spec_face_step(store, store.faces@[x.idx as int], assigned, vout, fout);
        assert(spec_write_faces(store, faces.push(x), assigned, vout, fout)
            == spec_write_faces(store, faces.push(x).drop_first(), fs.0, fs.1, fs.2));
    } else {
        assert(faces.push(x)[0] == faces[0]);
        assert(faces.push(x).drop_first() =~= faces.drop_first().push(x));
        let st = spec_face_step(
            store,
            store.faces@[faces[0].idx as int],
            assigned,
            vout,
            fout,
        );
        lemma_write_faces_push(store, faces.drop_first(), x, st.0, st.1, st.2);
        assert(spec_write_faces(store, faces.push(x), assigned, vout, fout)
            == spec_write_faces(store, faces.drop_first().push(x), st.0, st.1, st.2));
    }
}

/// Folding one more leftover vertex renders it after the ones before it.
proof fn lemma_write_leftover_push(
    store: Store,
    verts: Seq<VertexPtr>,
    x: VertexPtr,
    assigned: Seq<VertexPtr>,
    vout: Seq<u8>,
)
    ensures
        spec_write_leftover(store, verts.push(x), assigned, vout) == ({
            let v1 = spec_write_leftover(store, verts, assigned, vout);
            if spec_find_ptr(assigned, x, 0) < assigned.len() {
                v1
            } else {
                v1 + spec_vertex_line_bytes(store.vertices@[x.idx as int].point)
            }
        }),
    decreases verts.len(),
{
    if verts.len() == 0 {
        assert(verts.push(x)[0] == x);
        assert(verts.push(x).drop_first() =~= Seq::<VertexPtr>::empty());
        let vout1 = if spec_find_ptr(assigned, x, 0) < assigned.len() {
            vout
        } else {
            vout + spec_vertex_line_bytes(store.vertices@[x.idx as int].point)
        };
        assert(spec_write_leftover(store, verts.push(x), assigned, vout)
            == spec_write_leftover(store, verts.push(x).drop_first(), assigned, vout1));
    } else {
        assert(verts.push(x)[0] == verts[0]);
        assert(verts.push(x).drop_first() =~= verts.drop_first().push(x));
        let vout1 = if spec_find_ptr(assigned, verts[0], 0) < assigned.len() {
            vout
        } else {
            vout + spec_vertex_line_bytes(store.vertices@[verts[0].idx as int].point)
        };
        lemma_write_leftover_push(store, verts.drop_first(), x, assigned, vout1);
    }
}

/// The first position of `v` in the list; the length when absent.
#[verifier::loop_isolation(false)]
fn find_pos(list: &Vec<VertexPtr>, v: VertexPtr) -> (r: usize)
    ensures
        r as int == spec_find_ptr(list@, v, 0),
        r <= list@.len(),
{
    let mut i: usize = 0;
    while i < list.len()
        invariant
            i <= list@.len(),
            spec_find_ptr(list@, v, 0) == spec_find_ptr(list@, v, i as int),
        decreases list@.len() - i,
    {
        if list[i] == v {
            return i;
        }
        i = i + 1;
    }
    list.len()
}

/// Append the opening banner and vertex-section heading.
fn push_header(out: &mut Vec<u8>)
    ensures
        final(out)@ == old(out)@ + spec_header_bytes(),
{
    out.push(84);
    out.push(101);
    out.push(115);
    out.push(116);
    out.push(32);
    out.push(69);
    out.push(120);
    out.push(112);
    out.push(111);
    out.push(114);
    out.push(116);
    out.push(10);
    out.push(10);
    out.push(35);
    out.push(32);
    out.push(86);
    out.push(101);
    out.push(114);
    out.push(116);
    out.push(105);
    out.push(99);
    out.push(101);
    out.push(115);
    out.push(10);
    proof {
        assert(out@ =~= old(out)@ + spec_header_bytes());
    }
}

/// Append the face-section heading.
fn push_faces_banner(out: &mut Vec<u8>)
    ensures
        final(out)@ == old(out)@ + spec_faces_banner(),
{
    out.push(35);
    out.push(32);
    out.push(70);
    out.push(97);
    out.push(99);
    out.push(101);
    out.push(115);
    out.push(10);
    proof {
        assert(out@ =~= old(out)@ + spec_faces_banner());
    }
}

/// Append one coordinate line.
fn push_vertex_line(store: &Store, v: VertexPtr, out: &mut Vec<u8>)
    requires
        store.wf(),
        store.valid_v(v),
    ensures
        final(out)@ == old(out)@ + spec_vertex_line_bytes(
            store.vertices@[v.idx as int].point,
        ),
{
    out.push(118);
    out.push(32);
    proof {
        assert(store.wf_vertex(v.idx as int));
    }
    let pt = *store.vertex(v).point();
    push_fixed(out, pt.x);
    out.push(32);
    push_fixed(out, pt.y);
    out.push(32);
    push_fixed(out, pt.z);
    out.push(10);
    proof {
        assert(out@ =~= old(out)@ + spec_vertex_line_bytes(pt));
    }
}

/// Append one face line over three 1-based indices.
fn push_face_line(out: &mut Vec<u8>, i1: usize, i2: usize, i3: usize)
    ensures
        final(out)@ == old(out)@ + spec_face_line_bytes(i1 as int, i2 as int, i3 as int),
{
    out.push(102);
    out.push(32);
    push_number(out, i1 as u64);
    out.push(32);
    push_number(out, i2 as u64);
    out.push(32);
    push_number(out, i3 as u64);
    out.push(10);
    proof {
        assert(out@ =~= old(out)@ + spec_face_line_bytes(i1 as int, i2 as int, i3 as int));
    }
}

/// Render one face slot: append its coordinate line on first use and
/// return its 1-based coordinate-line index.
#[verifier::loop_isolation(false)]
fn render_slot(
    store: &Store,
    v: VertexPtr,
    assigned: &mut Vec<VertexPtr>,
    out: &mut Vec<u8>,
) -> (ix: usize)
    requires
        store.wf(),
        store.valid_v(v),
    ensures
        ({
            let st = spec_slot_step(*store, v, old(assigned)@, old(out)@);
            ix as int == st.0 && final(assigned)@ == st.1 && final(out)@ == st.2
        }),
{
    let pos = find_pos(assigned, v);
    if pos < assigned.len() {
        pos + 1
    } else {
        push_vertex_line(store, v, out);
        assigned.push(v);
        assigned.len()
    }
}

impl Mesh {
    /// Render the mesh as text: a banner, one coordinate line per distinct
    /// vertex reachable from the face set in first-use order, the vertices
    /// no face references appended after them, and then one face line per
    /// face giving three 1-based coordinate-line indices in the stored
    /// winding order.  Coordinates carry six decimal places.
    #[verifier::loop_isolation(false)]
    #[verifier::rlimit(100)]
    #[verifier::spinoff_prover]
    pub fn write(&self, store: &Store) -> (r: Vec<u8>)
        requires
            store.wf(),
            self.wf(),
            self.valid_in(*store),
        ensures
            r@ == spec_render_mesh(*store, *self),
    {
        let mut out: Vec<u8> = Vec::new();
        push_header(&mut out);
        let mut faces_out: Vec<u8> = Vec::new();
        push_faces_banner(&mut faces_out);
        proof {
            assert(out@ =~= spec_header_bytes());
            assert(faces_out@ =~= spec_faces_banner());
        }
        let mut assigned: Vec<VertexPtr> = Vec::new();
        let mut i: usize = 0;
        proof {
            assert(self.faces@.subrange(0, 0) =~= Seq::<FacePtr>::empty());
        }
        while i < self.faces.len()
            invariant
                store.wf(),
                self.wf(),
                self.valid_in(*store),
                i <= self.faces@.len(),
                ({
                    let st = spec_write_faces(
                        *store,
                        self.faces@.subrange(0, i as int),
                        Seq::empty(),
                        spec_header_bytes(),
                        spec_faces_banner(),
                    );
                    assigned@ == st.0 && out@ == st.1 && faces_out@ == st.2
                }),
            decreases self.faces@.len() - i,
        {
            let fp = self.faces[i];
            proof {
                assert(store.valid_f(self.faces@[i as int]));
                assert(store.wf_face(fp.idx as int));
            }
            let fd = *store.face(fp);
            let i1 = render_slot(store, fd.a, &mut assigned, &mut out);
            let i2 = render_slot(store, fd.b, &mut assigned, &mut out);
            let i3 = render_slot(store, fd.c, &mut assigned, &mut out);
            push_face_line(&mut faces_out, i1, i2, i3);
            i = i + 1;
            proof {
                assert(self.faces@.subrange(0, i as int) =~= self.faces@.subrange(
                    0,
                    i as int - 1,
                ).push(fp));
                lemma_write_faces_push(
                    *store,
                    self.faces@.subrange(0, i as int - 1),
                    fp,
                    Seq::empty(),
                    spec_header_bytes(),
                    spec_faces_banner(),
                );
                let stp = spec_write_faces(
                    *store,
                    self.faces@.subrange(0, i as int - 1),
                    Seq::empty(),
                    spec_header_bytes(),
                    spec_faces_banner(),
                );
                let st1 = spec_slot_step(*store, fd.a, stp.0, stp.1);
                let st2 = spec_slot_step(*store, fd.b, st1.1, st1.2);
                let st3 = spec_slot_step(*store, fd.c, st2.1, st2.2);
                assert(faces_out@ =~= stp.2 + spec_face_line_bytes(st1.0, st2.0, st3.0));
            }
        }
        proof {
            assert(self.faces@.subrange(0, self.faces@.len() as int) =~= self.faces@);
        }
        // vertices no face references
        let mut k: usize = 0;
        proof {
            assert(self.vertices@.subrange(0, 0) =~= Seq::<VertexPtr>::empty());
        }
        while k < self.vertices.len()
            invariant
                store.wf(),
                self.wf(),
                self.valid_in(*store),
                k <= self.vertices@.len(),
                ({
                    let st = spec_write_faces(
                        *store,
                        self.faces@,
                        Seq::empty(),
                        spec_header_bytes(),
                        spec_faces_banner(),
                    );
                    assigned@ == st.0 && faces_out@ == st.2 && out@ == spec_write_leftover(
                        *store,
                        self.vertices@.subrange(0, k as int),
                        st.0,
                        st.1,
                    )
                }),
            decreases self.vertices@.len() - k,
        {
            let v = self.vertices[k];
            proof {
                assert(store.valid_v(self.vertices@[k as int]));
                assert(store.wf_vertex(v.idx as int));
            }
            if find_pos(&assigned, v) >= assigned.len() {
                push_vertex_line(store, v, &mut out);
            }
            k = k + 1;
            proof {
                assert(self.vertices@.subrange(0, k as int) =~= self.vertices@.subrange(
                    0,
                    k as int - 1,
                ).push(v));
                let st = spec_write_faces(
                    *store,
                    self.faces@,
                    Seq::empty(),
                    spec_header_bytes(),
                    spec_faces_banner(),
                );
                lemma_write_leftover_push(
                    *store,
                    self.vertices@.subrange(0, k as int - 1),
                    v,
                    st.0,
                    st.1,
                );
            }
        }
        proof {
            assert(self.vertices@.subrange(0, self.vertices@.len() as int) =~= self.vertices@);
        }
        out.push(10);
        out.push(10);
        let mut f: usize = 0;
        while f < faces_out.len()
            invariant
                f <= faces_out@.len(),
                ({
                    let st = spec_write_faces(
                        *store,
                        self.faces@,
                        Seq::empty(),
                        spec_header_bytes(),
                        spec_faces_banner(),
                    );
                    faces_out@ == st.2 && out@ == spec_write_leftover(
                        *store,
                        self.vertices@,
                        st.0,
                        st.1,
                    ) + seq![10u8, 10u8] + faces_out@.subrange(0, f as int)
                }),
            decreases faces_out@.len() - f,
        {
            out.push(faces_out[f]);
            f = f + 1;
            proof {
                let st = spec_write_faces(
                    *store,
                    self.faces@,
                    Seq::empty(),
                    spec_header_bytes(),
                    spec_faces_banner(),
                );
                assert(out@ =~= spec_write_leftover(*store, self.vertices@, st.0, st.1) + seq![
                    10u8,
                    10u8,
                ] + faces_out@.subrange(0, f as int));
            }
        }
        proof {
            assert(faces_out@.subrange(0, faces_out@.len() as int) =~= faces_out@);
            assert(out@ =~= spec_render_mesh(*store, *self));
        }
        out
    }
}

/// A mesh that named only entities of the smaller store still names
/// entities of the grown one.
proof fn lemma_mesh_still_valid(m: Mesh, pre: Store, post: Store)
    requires
        m.valid_in(pre),
        pre.vertices@.len() <= post.vertices@.len(),
        pre.faces@.len() <= post.faces@.len(),
        pre.edges@.len() <= post.edges@.len(),
    ensures
        m.valid_in(post),
{
    assert forall|i: int| 0 <= i < m.vertices@.len() implies post.valid_v(
        #[trigger] m.vertices@[i],
    ) by {
        assert(pre.valid_v(m.vertices@[i]));
    }
    assert forall|i: int| 0 <= i < m.faces@.len() implies post.valid_f(#[trigger] m.faces@[i]) by {
        assert(pre.valid_f(m.faces@[i]));
    }
    assert forall|i: int| 0 <= i < m.edges@.len() implies post.valid_e(#[trigger] m.edges@[i]) by {
        assert(pre.valid_e(m.edges@[i]));
    }
}

} // verus!
