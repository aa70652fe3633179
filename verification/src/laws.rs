//! Laws of the loader, stated over the spec functions that the public
//! contracts use and proved once and for all.

use vstd::prelude::*;

use crate::text::{is_float_token, spec_tokens};
use crate::obj::{
    default_w, kw_v, spec_classify, spec_face_vertices, spec_pipeline, spec_resolve,
    spec_vertices, spec_vertices_from, LineView, ModelView, ObjError, VertexView,
};

verus! {

/// A position line of exactly three numeric arguments records the
/// default fourth coordinate: its `w` is the token for one.
pub proof fn lemma_position_default_w(l: Seq<u8>, lineno: usize)
    requires
        spec_tokens(l).len() == 4,
        spec_tokens(l)[0] == kw_v(),
        forall|j: int| 1 <= j < 4 ==> is_float_token(#[trigger] spec_tokens(l)[j]),
    ensures
        spec_classify(l, lineno) == Ok::<Option<LineView>, ObjError>(Some(LineView::VertexPos(
            spec_tokens(l)[1],
            spec_tokens(l)[2],
            spec_tokens(l)[3],
            default_w(),
        ))),
{
    let ts = spec_tokens(l);
    let args = ts.skip(1);
    assert forall|j: int| 0 <= j < args.len() implies is_float_token(#[trigger] args[j]) by {
        assert(args[j] == ts[j + 1]);
    }
    assert(args[0] == ts[1]);
    assert(args[1] == ts[2]);
    assert(args[2] == ts[3]);
}

/// A position line of exactly four numeric arguments records its
/// fourth argument as `w`, token for token.
pub proof fn lemma_position_explicit_w(l: Seq<u8>, lineno: usize)
    requires
        spec_tokens(l).len() == 5,
        spec_tokens(l)[0] == kw_v(),
        forall|j: int| 1 <= j < 5 ==> is_float_token(#[trigger] spec_tokens(l)[j]),
    ensures
        spec_classify(l, lineno) == Ok::<Option<LineView>, ObjError>(Some(LineView::VertexPos(
            spec_tokens(l)[1],
            spec_tokens(l)[2],
            spec_tokens(l)[3],
            spec_tokens(l)[4],
        ))),
{
    let ts = spec_tokens(l);
    let args = ts.skip(1);
    assert forall|j: int| 0 <= j < args.len() implies is_float_token(#[trigger] args[j]) by {
        assert(args[j] == ts[j + 1]);
    }
    assert(args[0] == ts[1]);
    assert(args[1] == ts[2]);
    assert(args[2] == ts[3]);
    assert(args[3] == ts[4]);
}

/// The walk over the faces surfaces the first fault, whatever has
/// accumulated before it.
proof fn lemma_vertices_from_err(m: ModelView, j: int, acc: Seq<VertexView>, i: usize, e: ObjError)
    requires
        0 <= j <= i < m.f.len(),
        forall|q: int| j <= q < i ==> (#[trigger] spec_face_vertices(m, m.f[q], q as usize)) is Ok,
        spec_face_vertices(m, m.f[i as int], i) == Err::<Seq<VertexView>, ObjError>(e),
    ensures
        spec_vertices_from(m, j, acc) == Err::<Seq<VertexView>, ObjError>(e),
    decreases i - j,
{
    if j < i {
        let vs = spec_face_vertices(m, m.f[j], j as usize)->Ok_0;
        lemma_vertices_from_err(m, j + 1, acc + vs, i, e);
    }
}

/// A face of any arity other than 3 or 4 fails the whole walk: the
/// result is the arity fault of the first such face, and no vertex
/// list is emitted at all.
pub proof fn lemma_invalid_arity_rejected(m: ModelView, i: usize)
    requires
        i < m.f.len(),
        m.f[i as int].len() != 3 && m.f[i as int].len() != 4,
        forall|q: int| 0 <= q < i ==> (#[trigger] spec_face_vertices(m, m.f[q], q as usize)) is Ok,
    ensures
        spec_vertices(m) == Err::<Seq<VertexView>, ObjError>(ObjError::InvalidFaceArity {
            face: i,
        }),
{
    lemma_vertices_from_err(m, 0, seq![], i, ObjError::InvalidFaceArity { face: i });
}

/// A corner whose position index is 0, or points past the position
/// table, fails the whole walk with an index fault at its face, and no
/// vertex list is emitted at all.
pub proof fn lemma_index_out_of_range_rejected(m: ModelView, i: usize, q: int)
    requires
        i < m.f.len(),
        m.f[i as int].len() == 3 || m.f[i as int].len() == 4,
        0 <= q < m.f[i as int].len(),
        m.f[i as int][q].v == 0 || m.f[i as int][q].v > m.v.len(),
        forall|p: int| 0 <= p < i ==> (#[trigger] spec_face_vertices(m, m.f[p], p as usize)) is Ok,
    ensures
        spec_vertices(m) == Err::<Seq<VertexView>, ObjError>(ObjError::IndexOutOfRange {
            face: i,
        }),
{
    assert(spec_resolve(m, m.f[i as int][q]) is None);
    lemma_vertices_from_err(m, 0, seq![], i, ObjError::IndexOutOfRange { face: i });
}

/// Each face contributes three or six vertices on top of what came
/// before it.
proof fn lemma_vertices_from_len(m: ModelView, j: int, acc: Seq<VertexView>)
    requires
        0 <= j,
        spec_vertices_from(m, j, acc) is Ok,
    ensures
        spec_vertices_from(m, j, acc)->Ok_0.len() >= acc.len(),
        (spec_vertices_from(m, j, acc)->Ok_0.len() - acc.len()) % 3 == 0,
    decreases m.f.len() - j,
{
    if j < m.f.len() {
        let vs = spec_face_vertices(m, m.f[j], j as usize)->Ok_0;
        assert(vs.len() == 3 || vs.len() == 6);
        lemma_vertices_from_len(m, j + 1, acc + vs);
    }
}

/// A triangle face contributes exactly three vertices and a quad
/// exactly six, so a model's whole triangle list has a length that is
/// a multiple of three.
pub proof fn lemma_vertices_len_multiple_of_three(m: ModelView)
    requires
        spec_vertices(m) is Ok,
    ensures
        spec_vertices(m)->Ok_0.len() % 3 == 0,
{
    lemma_vertices_from_len(m, 0, seq![]);
}

/// The pipeline is a function of the input text alone: any two results
/// it admits on the same bytes are equal, bit for bit.
pub proof fn lemma_pipeline_deterministic(
    s: Seq<u8>,
    r1: Result<Seq<VertexView>, ObjError>,
    r2: Result<Seq<VertexView>, ObjError>,
)
    requires
        r1 == spec_pipeline(s),
        r2 == spec_pipeline(s),
    ensures
        r1 == r2,
{
}


/// A walk that ends well leaves no face unchecked.
proof fn lemma_vertices_from_ok_faces(m: ModelView, j: int, acc: Seq<VertexView>)
    requires
        0 <= j,
        spec_vertices_from(m, j, acc) is Ok,
    ensures
        forall|q: int|
            j <= q < m.f.len() ==> (#[trigger] spec_face_vertices(m, m.f[q], q as usize)) is Ok,
    decreases m.f.len() - j,
{
    if j < m.f.len() {
        let vs = spec_face_vertices(m, m.f[j], j as usize)->Ok_0;
        lemma_vertices_from_ok_faces(m, j + 1, acc + vs);
    }
}

/// A model whose triangle list comes out at all has only sound faces:
/// every face has 3 or 4 corners and every corner of every face
/// resolves. A single bad arity or out-of-range index anywhere means
/// no vertex list is emitted.
pub proof fn lemma_ok_means_all_faces_sound(m: ModelView)
    requires
        spec_vertices(m) is Ok,
    ensures
        forall|q: int|
            0 <= q < m.f.len() ==> (m.f[q].len() == 3 || m.f[q].len() == 4),
        forall|q: int, c: int|
            0 <= q < m.f.len() && 0 <= c < m.f[q].len() ==> spec_resolve(m, #[trigger] m.f[q][c])
                is Some,
{
    lemma_vertices_from_ok_faces(m, 0, seq![]);
    assert forall|q: int| 0 <= q < m.f.len() implies (m.f[q].len() == 3 || m.f[q].len() == 4) by {
        assert(spec_face_vertices(m, m.f[q], q as usize) is Ok);
    }
    assert forall|q: int, c: int|
        0 <= q < m.f.len() && 0 <= c < m.f[q].len() implies spec_resolve(m, #[trigger] m.f[q][c])
        is Some by {
        assert(spec_face_vertices(m, m.f[q], q as usize) is Ok);
    }
}

} // verus!
