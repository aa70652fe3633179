//! The model text loader: line classification, the accumulated model,
//! resolution of 1-based attribute indices, and triangulation of faces
//! into a flat triangle-list vertex order.
//!
//! Scalars are carried as their source tokens, checked against the
//! numeric grammar at parse time; indices are decimal values. Every
//! public function's result is pinned down by a spec function over the
//! input bytes.

use vstd::prelude::*;
use vstd::string::StringSliceAdditionalSpecFns;

use crate::text::{
    check_float_token, is_float_token, parse_usize_token, spec_lines, spec_parse_usize,
    spec_split_slash, spec_tokens, split_lines, split_slash, tokenize, tokens_view,
};

verus! {

/// Everything that can be wrong with a model text or its use: each
/// variant carries the offending 1-based line, or face or triangle
/// position, where the stage that finds it knows one.
#[derive(Clone, Copy, Debug, PartialEq, Eq)]
pub enum ObjError {
    /// A numeric token does not parse as a number or an index.
    MalformedNumber { line: usize },
    /// A keyword line or a face corner lacks a required field.
    MissingRequiredField { line: usize },
    /// A face has other than 3 or 4 corners.
    InvalidFaceArity { face: usize },
    /// A corner's index is 0 or falls outside its attribute table.
    IndexOutOfRange { face: usize },
    /// A triangle's texture-coordinate edges span no area, so no
    /// tangent basis exists for it.
    TangentBasisDegenerate { triangle: usize },
}

/// Describes a vertex via the indices of its properties in the model
/// text, exactly as the face record gave them, 1-based.
#[derive(Copy, Clone, Debug, PartialEq, Eq)]
pub struct VertexIndices {
    /// Index of the vertex's coordinates.
    pub v: usize,

    /// Optional index of the vertex's texture coordinates.
    pub vt: Option<usize>,

    /// Index of the vertex's normals.
    pub vn: usize,
}

/// A classified line of model text, scalars as their tokens.
#[derive(Debug, PartialEq)]
pub enum ObjModelLine {
    VertexPos(Vec<u8>, Vec<u8>, Vec<u8>, Vec<u8>),
    VertexUv(Vec<u8>, Vec<u8>),
    VertexNormal(Vec<u8>, Vec<u8>, Vec<u8>),
    Face(Vec<VertexIndices>),
}

/// The value of a classified line: each scalar as its byte sequence.
pub enum LineView {
    VertexPos(Seq<u8>, Seq<u8>, Seq<u8>, Seq<u8>),
    VertexUv(Seq<u8>, Seq<u8>),
    VertexNormal(Seq<u8>, Seq<u8>, Seq<u8>),
    Face(Seq<VertexIndices>),
}

impl View for ObjModelLine {
    type V = LineView;

    open spec fn view(&self) -> LineView {
        match self {
            ObjModelLine::VertexPos(x, y, z, w) => LineView::VertexPos(x@, y@, z@, w@),
            ObjModelLine::VertexUv(u, v) => LineView::VertexUv(u@, v@),
            ObjModelLine::VertexNormal(x, y, z) => LineView::VertexNormal(x@, y@, z@),
            ObjModelLine::Face(cs) => LineView::Face(cs@),
        }
    }
}

/// The scalar token recorded for an absent fourth coordinate.
pub open spec fn default_w() -> Seq<u8> {
    seq![49u8, 46u8, 48u8]
}

/// Builds the default fourth-coordinate token.
pub fn default_w_token() -> (r: Vec<u8>)
    ensures
        r@ == default_w(),
{
    let mut r: Vec<u8> = Vec::new();
    r.push(49);
    r.push(46);
    r.push(48);
    proof {
        assert(r@ =~= default_w());
    }
    r
}

/// The scalar token recorded for an absent texture coordinate.
pub open spec fn default_uv() -> Seq<u8> {
    seq![48u8, 46u8, 48u8]
}

/// Builds the default texture-coordinate token.
pub fn default_uv_token() -> (r: Vec<u8>)
    ensures
        r@ == default_uv(),
{
    let mut r: Vec<u8> = Vec::new();
    r.push(48);
    r.push(46);
    r.push(48);
    proof {
        assert(r@ =~= default_uv());
    }
    r
}

/// Copies a scalar token.
fn copy_token(t: &Vec<u8>) -> (r: Vec<u8>)
    ensures
        r@ == t@,
{
    let mut r: Vec<u8> = Vec::new();
    let mut i: usize = 0;
    proof {
        assert(r@ =~= t@.subrange(0, 0));
    }
    while i < t.len()
        invariant
            i <= t@.len(),
            r@ =~= t@.subrange(0, i as int),
        decreases t@.len() - i,
    {
        r.push(t[i]);
        proof {
            assert(r@ =~= t@.subrange(0, i + 1));
        }
        i = i + 1;
    }
    proof {
        assert(t@.subrange(0, t@.len() as int) =~= t@);
    }
    r
}

/// What one face-corner token means: the `/`-separated fields are read
/// as indices; a non-number in any present field is malformed, and an
/// absent or empty first or third field is a missing one. The middle
/// field may be empty: the corner then has no texture coordinate.
pub open spec fn spec_corner(t: Seq<u8>, lineno: usize) -> Result<VertexIndices, ObjError> {
    let fs = spec_split_slash(t);
    if exists|j: int| 0 <= j < fs.len() && fs[j].len() > 0 && spec_parse_usize(fs[j]) is None {
        Err(ObjError::MalformedNumber { line: lineno })
    } else if fs[0].len() == 0 || fs.len() < 3 || fs[2].len() == 0 {
        Err(ObjError::MissingRequiredField { line: lineno })
    } else {
        Ok(VertexIndices {
            v: spec_parse_usize(fs[0]).unwrap(),
            vt: if fs[1].len() == 0 {
                None
            } else {
                Some(spec_parse_usize(fs[1]).unwrap())
            },
            vn: spec_parse_usize(fs[2]).unwrap(),
        })
    }
}

impl ObjModel {
    /// Reads one face-corner token, `index[/index][/index]`.
    pub fn parse_vertex_indices(input: &str, lineno: usize) -> (r: Result<VertexIndices, ObjError>)
        ensures
            r == spec_corner(input.spec_bytes(), lineno),
    {
        corner_of_token(input.as_bytes(), lineno)
    }
}

/// Reads one face-corner token given as bytes.
fn corner_of_token(t: &[u8], lineno: usize) -> (r: Result<VertexIndices, ObjError>)
    ensures
        r == spec_corner(t@, lineno),
{
    let fields = split_slash(t);
    let ghost fs = spec_split_slash(t@);
    let n = fields.len();
    let mut vals: Vec<Option<usize>> = Vec::new();
    let mut idx: usize = 0;
    while idx < n
        invariant
            idx <= n,
            n == fields@.len(),
            vals@.len() == idx,
            tokens_view(fields@) == fs,
            fs == spec_split_slash(t@),
            forall|q: int|
                0 <= q < idx ==> !(#[trigger] fs[q].len() > 0 && spec_parse_usize(fs[q]) is None),
            forall|q: int|
                0 <= q < idx ==> #[trigger] vals@[q] == (if fs[q].len() == 0 {
                    None
                } else {
                    spec_parse_usize(fs[q])
                }),
        decreases n - idx,
    {
        proof {
            assert(fs[idx as int] == fields@[idx as int]@);
        }
        if fields[idx].len() == 0 {
            vals.push(None);
        } else {
            match parse_usize_token(fields[idx].as_slice()) {
                Some(x) => {
                    vals.push(Some(x));
                },
                None => {
                    proof {
                        assert(fs[idx as int].len() > 0 && spec_parse_usize(fs[idx as int])
                            is None);
                    }
                    return Err(ObjError::MalformedNumber { line: lineno });
                },
            }
        }
        idx = idx + 1;
    }
    proof {
        assert(!(exists|j: int|
            0 <= j < fs.len() && fs[j].len() > 0 && spec_parse_usize(fs[j]) is None));
        assert(fs.len() >= 1);
        assert(fs[0] == fields@[0]@);
    }
    if fields[0].len() == 0 {
        return Err(ObjError::MissingRequiredField { line: lineno });
    }
    if n < 3 {
        return Err(ObjError::MissingRequiredField { line: lineno });
    }
    proof {
        assert(fs[2] == fields@[2]@);
        assert(fs[1] == fields@[1]@);
    }
    if fields[2].len() == 0 {
        return Err(ObjError::MissingRequiredField { line: lineno });
    }
    let v0 = vals[0].unwrap();
    let v2 = vals[2].unwrap();
    let v1 = if fields[1].len() == 0 {
        None
    } else {
        Some(vals[1].unwrap())
    };
    Ok(VertexIndices { v: v0, vt: v1, vn: v2 })
}

/// What a whole face argument list means: the corners in order, or the
/// first corner's fault.
pub open spec fn spec_face(ts: Seq<Seq<u8>>, lineno: usize) -> Result<
    Seq<VertexIndices>,
    ObjError,
>
    decreases ts.len(),
{
    if ts.len() == 0 {
        Ok(seq![])
    } else {
        match spec_corner(ts[0], lineno) {
            Err(e) => Err(e),
            Ok(c) => match spec_face(ts.skip(1), lineno) {
                Err(e) => Err(e),
                Ok(rest) => Ok(seq![c] + rest),
            },
        }
    }
}

/// A face list whose corners all read cleanly is the list of their
/// values.
pub proof fn lemma_spec_face_all_ok(ts: Seq<Seq<u8>>, lineno: usize, cs: Seq<VertexIndices>)
    requires
        cs.len() == ts.len(),
        forall|q: int| 0 <= q < ts.len() ==> (#[trigger] spec_corner(ts[q], lineno)) is Ok,
        forall|q: int|
            0 <= q < ts.len() ==> cs[q] == (#[trigger] spec_corner(ts[q], lineno))->Ok_0,
    ensures
        spec_face(ts, lineno) == Ok::<Seq<VertexIndices>, ObjError>(cs),
    decreases ts.len(),
{
    if ts.len() == 0 {
        assert(cs =~= Seq::<VertexIndices>::empty());
    } else {
        let ts1 = ts.skip(1);
        let cs1 = cs.skip(1);
        assert forall|q: int| 0 <= q < ts1.len() implies (#[trigger] spec_corner(ts1[q], lineno))
            is Ok && cs1[q] == spec_corner(ts1[q], lineno)->Ok_0 by {
            assert(ts1[q] == ts[q + 1]);
            assert(cs1[q] == cs[q + 1]);
        }
        lemma_spec_face_all_ok(ts1, lineno, cs1);
        assert(seq![cs[0]] + cs1 =~= cs);
    }
}

/// The first corner that does not read gives the face its fault.
pub proof fn lemma_spec_face_err(ts: Seq<Seq<u8>>, i: int, lineno: usize)
    requires
        0 <= i < ts.len(),
        forall|q: int| 0 <= q < i ==> (#[trigger] spec_corner(ts[q], lineno)) is Ok,
        spec_corner(ts[i], lineno) is Err,
    ensures
        spec_face(ts, lineno) == Err::<Seq<VertexIndices>, ObjError>(spec_corner(ts[i],
            lineno)->Err_0),
    decreases ts.len(),
{
    if i == 0 {
    } else {
        let ts1 = ts.skip(1);
        assert forall|q: int| 0 <= q < i - 1 implies (#[trigger] spec_corner(ts1[q], lineno))
            is Ok by {
            assert(ts1[q] == ts[q + 1]);
        }
        assert(ts1[i - 1] == ts[i]);
        lemma_spec_face_err(ts1, i - 1, lineno);
    }
}


/// The keyword that opens a position line.
pub open spec fn kw_v() -> Seq<u8> {
    seq![118u8]
}

/// The keyword that opens a texture-coordinate line.
pub open spec fn kw_vt() -> Seq<u8> {
    seq![118u8, 116u8]
}

/// The keyword that opens a normal line.
pub open spec fn kw_vn() -> Seq<u8> {
    seq![118u8, 110u8]
}

/// The keyword that opens a face line.
pub open spec fn kw_f() -> Seq<u8> {
    seq![102u8]
}

/// What one line of model text means. The first token picks the record
/// kind; any other keyword, and a blank line, is ignored. Scalar
/// arguments must all fit the numeric grammar, whatever their number;
/// a position takes three of them and an optional fourth, a texture
/// coordinate two, a normal three, and arguments beyond those are
/// ignored. A face line accumulates its corner records unchecked for
/// arity: that check belongs to triangulation.
pub open spec fn spec_classify(l: Seq<u8>, lineno: usize) -> Result<Option<LineView>, ObjError> {
    let ts = spec_tokens(l);
    if ts.len() == 0 {
        Ok(None)
    } else if ts[0] == kw_v() {
        let args = ts.skip(1);
        if exists|j: int| 0 <= j < args.len() && !is_float_token(#[trigger] args[j]) {
            Err(ObjError::MalformedNumber { line: lineno })
        } else if args.len() < 3 {
            Err(ObjError::MissingRequiredField { line: lineno })
        } else {
            Ok(Some(LineView::VertexPos(args[0], args[1], args[2], if args.len() >= 4 {
                args[3]
            } else {
                default_w()
            })))
        }
    } else if ts[0] == kw_vt() {
        let args = ts.skip(1);
        if exists|j: int| 0 <= j < args.len() && !is_float_token(#[trigger] args[j]) {
            Err(ObjError::MalformedNumber { line: lineno })
        } else if args.len() < 2 {
            Err(ObjError::MissingRequiredField { line: lineno })
        } else {
            Ok(Some(LineView::VertexUv(args[0], args[1])))
        }
    } else if ts[0] == kw_vn() {
        let args = ts.skip(1);
        if exists|j: int| 0 <= j < args.len() && !is_float_token(#[trigger] args[j]) {
            Err(ObjError::MalformedNumber { line: lineno })
        } else if args.len() < 3 {
            Err(ObjError::MissingRequiredField { line: lineno })
        } else {
            Ok(Some(LineView::VertexNormal(args[0], args[1], args[2])))
        }
    } else if ts[0] == kw_f() {
        match spec_face(ts.skip(1), lineno) {
            Err(e) => Err(e),
            Ok(cs) => Ok(Some(LineView::Face(cs))),
        }
    } else {
        Ok(None)
    }
}

/// The line value a parse result stands for.
pub open spec fn line_res_view(r: Result<Option<ObjModelLine>, ObjError>) -> Result<
    Option<LineView>,
    ObjError,
> {
    match r {
        Ok(None) => Ok(None),
        Ok(Some(e)) => Ok(Some(e@)),
        Err(e) => Err(e),
    }
}

/// Checks that every argument token fits the numeric grammar.
fn check_args_float(toks: &Vec<Vec<u8>>) -> (r: bool)
    ensures
        r == (forall|q: int| 1 <= q < toks@.len() ==> is_float_token(#[trigger] toks@[q]@)),
{
    let mut j: usize = 1;
    while j < toks.len()
        invariant
            1 <= j <= toks@.len() || toks@.len() == 0,
            forall|q: int| 1 <= q < j ==> is_float_token(#[trigger] toks@[q]@),
        decreases toks@.len() - j,
    {
        if !check_float_token(toks[j].as_slice()) {
            return false;
        }
        j = j + 1;
    }
    true
}

impl ObjModel {
    /// Classifies one line of model text; `lineno` is its 1-based place
    /// in the input, carried into any fault.
    pub fn parse_line(line: &str, lineno: usize) -> (r: Result<Option<ObjModelLine>, ObjError>)
        ensures
            line_res_view(r) == spec_classify(line.spec_bytes(), lineno),
    {
        classify_line(line.as_bytes(), lineno)
    }
}

/// Classifies one line given as bytes.
fn classify_line(l: &[u8], lineno: usize) -> (r: Result<Option<ObjModelLine>, ObjError>)
    ensures
        line_res_view(r) == spec_classify(l@, lineno),
{
    let toks = tokenize(l);
    let ghost ts = spec_tokens(l@);
    if toks.len() == 0 {
        return Ok(None);
    }
    proof {
        assert(ts[0] == toks@[0]@);
        assert forall|q: int| 0 <= q < ts.len() implies ts[q] == toks@[q]@ by {}
        assert forall|q: int| 0 <= q < ts.skip(1).len() implies ts.skip(1)[q] == ts[q + 1] by {}
    }
    let kw = &toks[0];
    let is_v = kw.len() == 1 && kw[0] == 118;
    let is_vt = kw.len() == 2 && kw[0] == 118 && kw[1] == 116;
    let is_vn = kw.len() == 2 && kw[0] == 118 && kw[1] == 110;
    let is_f = kw.len() == 1 && kw[0] == 102;
    proof {
        if kw@.len() == 1 && kw@[0] == 118 {
            assert(kw@ =~= kw_v());
        }
        if kw@.len() == 2 && kw@[0] == 118 && kw@[1] == 116 {
            assert(kw@ =~= kw_vt());
        }
        if kw@.len() == 2 && kw@[0] == 118 && kw@[1] == 110 {
            assert(kw@ =~= kw_vn());
        }
        if kw@.len() == 1 && kw@[0] == 102 {
            assert(kw@ =~= kw_f());
        }
        assert(is_v == (ts[0] == kw_v()));
        assert(is_vt == (ts[0] == kw_vt()));
        assert(is_vn == (ts[0] == kw_vn()));
        assert(is_f == (ts[0] == kw_f()));
    }
    if is_v {
        if !check_args_float(&toks) {
            proof {
                let q0 = choose|q: int| 1 <= q < toks@.len() && !is_float_token(toks@[q]@);
                assert(!is_float_token(ts.skip(1)[q0 - 1]));
            }
            return Err(ObjError::MalformedNumber { line: lineno });
        }
        proof {
            assert forall|j: int| 0 <= j < ts.skip(1).len() implies is_float_token(
                #[trigger] ts.skip(1)[j]) by {
                assert(ts.skip(1)[j] == toks@[j + 1]@);
            }
        }
        if toks.len() < 4 {
            return Err(ObjError::MissingRequiredField { line: lineno });
        }
        let w = if toks.len() >= 5 {
            copy_token(&toks[4])
        } else {
            default_w_token()
        };
        return Ok(Some(ObjModelLine::VertexPos(copy_token(&toks[1]), copy_token(&toks[2]),
            copy_token(&toks[3]), w)));
    }
    if is_vt {
        if !check_args_float(&toks) {
            proof {
                let q0 = choose|q: int| 1 <= q < toks@.len() && !is_float_token(toks@[q]@);
                assert(!is_float_token(ts.skip(1)[q0 - 1]));
            }
            return Err(ObjError::MalformedNumber { line: lineno });
        }
        proof {
            assert forall|j: int| 0 <= j < ts.skip(1).len() implies is_float_token(
                #[trigger] ts.skip(1)[j]) by {
                assert(ts.skip(1)[j] == toks@[j + 1]@);
            }
        }
        if toks.len() < 3 {
            return Err(ObjError::MissingRequiredField { line: lineno });
        }
        return Ok(Some(ObjModelLine::VertexUv(copy_token(&toks[1]), copy_token(&toks[2]))));
    }
    if is_vn {
        if !check_args_float(&toks) {
            proof {
                let q0 = choose|q: int| 1 <= q < toks@.len() && !is_float_token(toks@[q]@);
                assert(!is_float_token(ts.skip(1)[q0 - 1]));
            }
            return Err(ObjError::MalformedNumber { line: lineno });
        }
        proof {
            assert forall|j: int| 0 <= j < ts.skip(1).len() implies is_float_token(
                #[trigger] ts.skip(1)[j]) by {
                assert(ts.skip(1)[j] == toks@[j + 1]@);
            }
        }
        if toks.len() < 4 {
            return Err(ObjError::MissingRequiredField { line: lineno });
        }
        return Ok(Some(ObjModelLine::VertexNormal(copy_token(&toks[1]), copy_token(&toks[2]),
            copy_token(&toks[3]))));
    }
    if is_f {
        let mut corners: Vec<VertexIndices> = Vec::new();
        let mut j: usize = 1;
        while j < toks.len()
            invariant
                1 <= j <= toks@.len(),
                tokens_view(toks@) == spec_tokens(l@),
                ts == spec_tokens(l@),
                ts.len() > 0,
                ts[0] == kw_f(),
                ts[0] != kw_v(),
                ts[0] != kw_vt(),
                ts[0] != kw_vn(),
                corners@.len() == j - 1,
                forall|q: int| 1 <= q < j ==> (#[trigger] spec_corner(toks@[q]@, lineno)) is Ok,
                forall|q: int|
                    1 <= q < j ==> corners@[q - 1] == (#[trigger] spec_corner(toks@[q]@,
                        lineno))->Ok_0,
            decreases toks@.len() - j,
        {
            match corner_of_token(toks[j].as_slice(), lineno) {
                Ok(c) => {
                    corners.push(c);
                },
                Err(e) => {
                    proof {
                        let args = ts.skip(1);
                        assert forall|q: int| 0 <= q < j - 1 implies (#[trigger] spec_corner(
                            args[q], lineno)) is Ok by {
                            assert(args[q] == toks@[q + 1]@);
                        }
                        assert(args[j - 1] == toks@[j as int]@);
                        lemma_spec_face_err(args, j - 1, lineno);
                    }
                    return Err(e);
                },
            }
            j = j + 1;
        }
        proof {
            let args = ts.skip(1);
            assert forall|q: int| 0 <= q < args.len() implies (#[trigger] spec_corner(args[q],
                lineno)) is Ok && corners@[q] == spec_corner(args[q], lineno)->Ok_0 by {
                assert(args[q] == toks@[q + 1]@);
            }
            lemma_spec_face_all_ok(args, lineno, corners@);
        }
        return Ok(Some(ObjModelLine::Face(corners)));
    }
    Ok(None)
}


/// The parsed model: three attribute tables in file order, scalars as
/// tokens, and the raw face records. Populated line by line by `parse`
/// and read-only afterwards.
#[derive(Debug, PartialEq)]
pub struct ObjModel {
    /// Vertex coordinates, `(x, y, z, w)`.
    pub v: Vec<(Vec<u8>, Vec<u8>, Vec<u8>, Vec<u8>)>,

    /// Vertex texture coordinates, `(u, v)`.
    pub vt: Vec<(Vec<u8>, Vec<u8>)>,

    /// Vertex normals, `(x, y, z)`.
    pub vn: Vec<(Vec<u8>, Vec<u8>, Vec<u8>)>,

    /// Faces, each an ordered list of corner index records.
    pub f: Vec<Vec<VertexIndices>>,
}

/// The value of a model: its tables and faces as sequences.
#[verifier::ext_equal]
pub struct ModelView {
    pub v: Seq<(Seq<u8>, Seq<u8>, Seq<u8>, Seq<u8>)>,
    pub vt: Seq<(Seq<u8>, Seq<u8>)>,
    pub vn: Seq<(Seq<u8>, Seq<u8>, Seq<u8>)>,
    pub f: Seq<Seq<VertexIndices>>,
}

impl View for ObjModel {
    type V = ModelView;

    open spec fn view(&self) -> ModelView {
        ModelView {
            v: self.v@.map_values(
                |p: (Vec<u8>, Vec<u8>, Vec<u8>, Vec<u8>)| (p.0@, p.1@, p.2@, p.3@),
            ),
            vt: self.vt@.map_values(|p: (Vec<u8>, Vec<u8>)| (p.0@, p.1@)),
            vn: self.vn@.map_values(|p: (Vec<u8>, Vec<u8>, Vec<u8>)| (p.0@, p.1@, p.2@)),
            f: self.f@.map_values(|p: Vec<VertexIndices>| p@),
        }
    }
}

/// A model with no records of any kind.
pub open spec fn empty_model() -> ModelView {
    ModelView { v: seq![], vt: seq![], vn: seq![], f: seq![] }
}

/// The model grown by one classified line: each record kind appends to
/// its own table, in file order.
pub open spec fn model_add_line(m: ModelView, e: LineView) -> ModelView {
    match e {
        LineView::VertexPos(x, y, z, w) => ModelView {
            v: m.v + seq![(x, y, z, w)],
            vt: m.vt,
            vn: m.vn,
            f: m.f,
        },
        LineView::VertexUv(u, v) => ModelView {
            v: m.v,
            vt: m.vt + seq![(u, v)],
            vn: m.vn,
            f: m.f,
        },
        LineView::VertexNormal(x, y, z) => ModelView {
            v: m.v,
            vt: m.vt,
            vn: m.vn + seq![(x, y, z)],
            f: m.f,
        },
        LineView::Face(cs) => ModelView { v: m.v, vt: m.vt, vn: m.vn, f: m.f + seq![cs] },
    }
}

/// The model the lines from `i` on build on top of `acc`, or the first
/// line's fault; line numbers are 1-based.
pub open spec fn spec_parse_from(ls: Seq<Seq<u8>>, i: int, acc: ModelView) -> Result<
    ModelView,
    ObjError,
>
    decreases ls.len() - i,
{
    if i < 0 || i >= ls.len() {
        Ok(acc)
    } else {
        match spec_classify(ls[i], (i + 1) as usize) {
            Err(e) => Err(e),
            Ok(None) => spec_parse_from(ls, i + 1, acc),
            Ok(Some(e)) => spec_parse_from(ls, i + 1, model_add_line(acc, e)),
        }
    }
}

/// The model a whole input text builds, or its first fault.
pub open spec fn spec_parse(s: Seq<u8>) -> Result<ModelView, ObjError> {
    spec_parse_from(spec_lines(s), 0, empty_model())
}

/// The model value a parse result stands for.
pub open spec fn model_res_view(r: Result<ObjModel, ObjError>) -> Result<ModelView, ObjError> {
    match r {
        Ok(m) => Ok(m@),
        Err(e) => Err(e),
    }
}

impl ObjModel {
    /// An empty model.
    pub fn new() -> (r: ObjModel)
        ensures
            r@ == empty_model(),
    {
        let r = ObjModel { v: Vec::new(), vt: Vec::new(), vn: Vec::new(), f: Vec::new() };
        proof {
            assert(r@.v =~= empty_model().v);
            assert(r@.vt =~= empty_model().vt);
            assert(r@.vn =~= empty_model().vn);
            assert(r@.f =~= empty_model().f);
            assert(r@ =~= empty_model());
        }
        r
    }

    /// Parses a whole model text, line by line: records accumulate in
    /// file order, unknown keywords and blank lines are ignored, and
    /// the first faulty line stops the parse with its fault.
    pub fn parse(input: &str) -> (r: Result<ObjModel, ObjError>)
        ensures
            model_res_view(r) == spec_parse(input.spec_bytes()),
    {
        let lines = split_lines(input.as_bytes());
        let ghost ls = spec_lines(input.spec_bytes());
        let mut model = ObjModel::new();
        let mut i: usize = 0;
        while i < lines.len()
            invariant
                i <= lines@.len(),
                tokens_view(lines@) == ls,
                ls == spec_lines(input.spec_bytes()),
                spec_parse(input.spec_bytes()) == spec_parse_from(ls, i as int, model@),
            decreases lines@.len() - i,
        {
            proof {
                assert(ls[i as int] == lines@[i as int]@);
            }
            match classify_line(lines[i].as_slice(), i + 1) {
                Err(e) => {
                    return Err(e);
                },
                Ok(None) => {},
                Ok(Some(entry)) => {
                    let ghost prev = model@;
                    let ghost ev = entry@;
                    match entry {
                        ObjModelLine::VertexPos(x, y, z, w) => {
                            model.v.push((x, y, z, w));
                        },
                        ObjModelLine::VertexUv(u, v) => {
                            model.vt.push((u, v));
                        },
                        ObjModelLine::VertexNormal(x, y, z) => {
                            model.vn.push((x, y, z));
                        },
                        ObjModelLine::Face(cs) => {
                            model.f.push(cs);
                        },
                    }
                    proof {
                        assert(model@.v =~= model_add_line(prev, ev).v);
                        assert(model@.vt =~= model_add_line(prev, ev).vt);
                        assert(model@.vn =~= model_add_line(prev, ev).vn);
                        assert(model@.f =~= model_add_line(prev, ev).f);
                        assert(model@ =~= model_add_line(prev, ev));
                    }
                },
            }
            i = i + 1;
        }
        Ok(model)
    }
}


/// A fully resolved vertex: position, normal and texture coordinates
/// looked up from the tables, scalars as tokens.
#[derive(Debug, PartialEq)]
pub struct Vertex {
    /// Position, `(x, y, z)`: the looked-up coordinate record without
    /// its fourth component.
    pub position: (Vec<u8>, Vec<u8>, Vec<u8>),

    /// Normal, `(x, y, z)`.
    pub normal: (Vec<u8>, Vec<u8>, Vec<u8>),

    /// Texture coordinates, `(u, v)`; the default pair when the corner
    /// names none.
    pub uv: (Vec<u8>, Vec<u8>),
}

/// The value of a resolved vertex.
#[verifier::ext_equal]
pub struct VertexView {
    pub position: (Seq<u8>, Seq<u8>, Seq<u8>),
    pub normal: (Seq<u8>, Seq<u8>, Seq<u8>),
    pub uv: (Seq<u8>, Seq<u8>),
}

impl View for Vertex {
    type V = VertexView;

    open spec fn view(&self) -> VertexView {
        VertexView {
            position: (self.position.0@, self.position.1@, self.position.2@),
            normal: (self.normal.0@, self.normal.1@, self.normal.2@),
            uv: (self.uv.0@, self.uv.1@),
        }
    }
}

/// Resolution of one corner against the tables. Indices are 1-based;
/// 0, and anything past its table, resolves to nothing. An absent
/// texture index yields the default pair.
pub open spec fn spec_resolve(m: ModelView, c: VertexIndices) -> Option<VertexView> {
    if 1 <= c.v && c.v <= m.v.len() && 1 <= c.vn && c.vn <= m.vn.len() && (match c.vt {
        Some(t) => 1 <= t && t <= m.vt.len(),
        None => true,
    }) {
        Some(VertexView {
            position: (m.v[c.v - 1].0, m.v[c.v - 1].1, m.v[c.v - 1].2),
            normal: m.vn[c.vn - 1],
            uv: match c.vt {
                Some(t) => m.vt[t - 1],
                None => (default_uv(), default_uv()),
            },
        })
    } else {
        None
    }
}

/// The triangle-list emission order of a face of `k` corners: a
/// triangle keeps its corner order; a quad becomes the two triangles
/// that share its diagonal from corner 0 to corner 2.
pub open spec fn emission_order(k: int) -> Seq<int> {
    if k == 3 {
        seq![0int, 1, 2]
    } else {
        seq![0int, 1, 2, 2, 3, 0]
    }
}

/// What one face contributes to the triangle list: its corners
/// resolved in emission order; a fault if its arity is not 3 or 4, or
/// any corner fails to resolve. `idx` is the face's 0-based place.
pub open spec fn spec_face_vertices(m: ModelView, face: Seq<VertexIndices>, idx: usize) -> Result<
    Seq<VertexView>,
    ObjError,
> {
    if face.len() != 3 && face.len() != 4 {
        Err(ObjError::InvalidFaceArity { face: idx })
    } else if exists|q: int| 0 <= q < face.len() && spec_resolve(m, #[trigger] face[q]) is None {
        Err(ObjError::IndexOutOfRange { face: idx })
    } else {
        let ord = emission_order(face.len() as int);
        Ok(Seq::new(ord.len(), |j: int| spec_resolve(m, face[ord[j]]).unwrap()))
    }
}

/// The triangle list the faces from `i` on contribute after `acc`, or
/// the first face's fault.
pub open spec fn spec_vertices_from(m: ModelView, i: int, acc: Seq<VertexView>) -> Result<
    Seq<VertexView>,
    ObjError,
>
    decreases m.f.len() - i,
{
    if i < 0 || i >= m.f.len() {
        Ok(acc)
    } else {
        match spec_face_vertices(m, m.f[i], i as usize) {
            Err(e) => Err(e),
            Ok(vs) => spec_vertices_from(m, i + 1, acc + vs),
        }
    }
}

/// The whole triangle list of a model, or its first fault.
pub open spec fn spec_vertices(m: ModelView) -> Result<Seq<VertexView>, ObjError> {
    spec_vertices_from(m, 0, seq![])
}

/// The vertex sequence a resolution result stands for.
pub open spec fn verts_res_view(r: Result<Vec<Vertex>, ObjError>) -> Result<
    Seq<VertexView>,
    ObjError,
> {
    match r {
        Ok(vs) => Ok(vs@.map_values(|x: Vertex| x@)),
        Err(e) => Err(e),
    }
}

impl ObjModel {
    /// Resolves one corner against the tables; `face` is the corner's
    /// face position, carried into the fault when an index is 0 or
    /// falls outside its table.
    pub fn lookup_vertex_indices(&self, indices: VertexIndices, face: usize) -> (r: Result<
        Vertex,
        ObjError,
    >)
        ensures
            match r {
                Ok(vx) => spec_resolve(self@, indices) == Some(vx@),
                Err(e) => spec_resolve(self@, indices) is None && e == (ObjError::IndexOutOfRange {
                    face,
                }),
            },
    {
        if indices.v < 1 || indices.v > self.v.len() {
            return Err(ObjError::IndexOutOfRange { face });
        }
        if indices.vn < 1 || indices.vn > self.vn.len() {
            return Err(ObjError::IndexOutOfRange { face });
        }
        let uv = match indices.vt {
            Some(t) => {
                if t < 1 || t > self.vt.len() {
                    return Err(ObjError::IndexOutOfRange { face });
                }
                let p = &self.vt[t - 1];
                (copy_token(&p.0), copy_token(&p.1))
            },
            None => (default_uv_token(), default_uv_token()),
        };
        let p = &self.v[indices.v - 1];
        let nm = &self.vn[indices.vn - 1];
        let vx = Vertex {
            position: (copy_token(&p.0), copy_token(&p.1), copy_token(&p.2)),
            normal: (copy_token(&nm.0), copy_token(&nm.1), copy_token(&nm.2)),
            uv,
        };
        proof {
            assert(self@.v[indices.v - 1] == (p.0@, p.1@, p.2@, p.3@));
            assert(self@.vn[indices.vn - 1] == (nm.0@, nm.1@, nm.2@));
            if indices.vt is Some {
                let t = indices.vt.unwrap();
                assert(self@.vt[t - 1] == (self.vt@[t - 1].0@, self.vt@[t - 1].1@));
            }
            assert(spec_resolve(self@, indices) == Some(vx@));
        }
        Ok(vx)
    }

    /// Resolves and triangulates every face, in file order: a triangle
    /// contributes its corners as they stand, a quad the corner order
    /// 0, 1, 2, 2, 3, 0. The first fault stops the walk: a face of any
    /// other arity, or a corner index outside its table, yields an
    /// error and no vertex list at all.
    pub fn vertices(&self) -> (r: Result<Vec<Vertex>, ObjError>)
        ensures
            verts_res_view(r) == spec_vertices(self@),
            r is Ok ==> r->Ok_0@.len() % 3 == 0,
    {
        let mut out: Vec<Vertex> = Vec::new();
        let mut i: usize = 0;
        proof {
            assert(out@.map_values(|x: Vertex| x@) =~= Seq::<VertexView>::empty());
        }
        while i < self.f.len()
            invariant
                i <= self.f@.len(),
                spec_vertices(self@) == spec_vertices_from(self@, i as int, out@.map_values(
                    |x: Vertex| x@)),
            decreases self.f@.len() - i,
        {
            let ghost m = self@;
            let face = &self.f[i];
            proof {
                assert(m.f[i as int] == face@);
            }
            let k = face.len();
            if k != 3 && k != 4 {
                return Err(ObjError::InvalidFaceArity { face: i });
            }
            let ghost before = out@.map_values(|x: Vertex| x@);
            if k == 3 {
                let v0 = match self.lookup_vertex_indices(face[0], i) {
                    Ok(x) => x,
                    Err(e) => {
                        return Err(e);
                    },
                };
                let v1 = match self.lookup_vertex_indices(face[1], i) {
                    Ok(x) => x,
                    Err(e) => {
                        return Err(e);
                    },
                };
                let v2 = match self.lookup_vertex_indices(face[2], i) {
                    Ok(x) => x,
                    Err(e) => {
                        return Err(e);
                    },
                };
                proof {
                    assert forall|q: int| 0 <= q < face@.len() implies spec_resolve(m,
                        #[trigger] face@[q]) is Some by {
                        if q == 0 {
                        } else if q == 1 {
                        } else {
                            assert(q == 2);
                        }
                    }
                }
                let ghost emitted = spec_face_vertices(m, face@, i)->Ok_0;
                out.push(v0);
                out.push(v1);
                out.push(v2);
                proof {
                    assert(out@.map_values(|x: Vertex| x@) =~= before + emitted);
                }
            } else {
                let v0 = match self.lookup_vertex_indices(face[0], i) {
                    Ok(x) => x,
                    Err(e) => {
                        return Err(e);
                    },
                };
                let v1 = match self.lookup_vertex_indices(face[1], i) {
                    Ok(x) => x,
                    Err(e) => {
                        return Err(e);
                    },
                };
                let v2 = match self.lookup_vertex_indices(face[2], i) {
                    Ok(x) => x,
                    Err(e) => {
                        return Err(e);
                    },
                };
                let v3 = match self.lookup_vertex_indices(face[2], i) {
                    Ok(x) => x,
                    Err(e) => {
                        return Err(e);
                    },
                };
                let v4 = match self.lookup_vertex_indices(face[3], i) {
                    Ok(x) => x,
                    Err(e) => {
                        return Err(e);
                    },
                };
                let v5 = match self.lookup_vertex_indices(face[0], i) {
                    Ok(x) => x,
                    Err(e) => {
                        return Err(e);
                    },
                };
                proof {
                    assert forall|q: int| 0 <= q < face@.len() implies spec_resolve(m,
                        #[trigger] face@[q]) is Some by {
                        if q == 0 {
                        } else if q == 1 {
                        } else if q == 2 {
                        } else {
                            assert(q == 3);
                        }
                    }
                }
                let ghost emitted = spec_face_vertices(m, face@, i)->Ok_0;
                out.push(v0);
                out.push(v1);
                out.push(v2);
                out.push(v3);
                out.push(v4);
                out.push(v5);
                proof {
                    assert(out@.map_values(|x: Vertex| x@) =~= before + emitted);
                }
            }
            i = i + 1;
        }
        proof {
            crate::laws::lemma_vertices_len_multiple_of_three(self@);
        }
        Ok(out)
    }
}

/// The triangle list a whole input text stands for: parse, then
/// resolve and triangulate.
pub open spec fn spec_pipeline(s: Seq<u8>) -> Result<Seq<VertexView>, ObjError> {
    match spec_parse(s) {
        Err(e) => Err(e),
        Ok(m) => spec_vertices(m),
    }
}

/// Runs the whole text pipeline on one input: the parsed model's
/// triangle list, or the first fault of either stage.
pub fn mesh_vertices(input: &str) -> (r: Result<Vec<Vertex>, ObjError>)
    ensures
        verts_res_view(r) == spec_pipeline(input.spec_bytes()),
        r is Ok ==> r->Ok_0@.len() % 3 == 0,
{
    match ObjModel::parse(input) {
        Err(e) => Err(e),
        Ok(model) => model.vertices(),
    }
}

} // verus!
