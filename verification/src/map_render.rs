//! Static map geometry and the tables and layouts behind its look.
//!
//! Coordinates are opaque here (`T`): what is decided is which corners go
//! where, which walls share a mesh, which cells get a window, and which bytes a
//! sign is made of. Measuring and lighting are the caller's.

use vstd::prelude::*;
use crate::models::Centi3;
use crate::scalar::F32;
use crate::wire::EnvKind;

verus! {

// ---- meshes -----------------------------------------------------------------

/// A point or a direction.
#[derive(Debug, PartialEq, Eq)]
pub struct P3<T> {
    pub x: T,
    pub y: T,
    pub z: T,
}

impl<T: Copy> Copy for P3<T> {

}

impl<T: Copy> Clone for P3<T> {
    fn clone(&self) -> (r: Self)
        ensures
            r == *self,
    {
        *self
    }
}

/// A texture coordinate.
#[derive(Debug, PartialEq, Eq)]
pub struct P2<T> {
    pub u: T,
    pub v: T,
}

impl<T: Copy> Copy for P2<T> {

}

impl<T: Copy> Clone for P2<T> {
    fn clone(&self) -> (r: Self)
        ensures
            r == *self,
    {
        *self
    }
}

/// The four corners of a face, or their texture coordinates, in order.
#[derive(Debug, PartialEq, Eq)]
pub struct Quad<P> {
    pub a: P,
    pub b: P,
    pub c: P,
    pub d: P,
}

impl<P: Copy> Copy for Quad<P> {

}

impl<P: Copy> Clone for Quad<P> {
    fn clone(&self) -> (r: Self)
        ensures
            r == *self,
    {
        *self
    }
}

impl<P> Quad<P> {
    /// The four, in order.
    pub open spec fn items(self) -> Seq<P> {
        seq![self.a, self.b, self.c, self.d]
    }
}

/// A colour with its opacity.
#[derive(Debug, PartialEq, Eq)]
pub struct Rgba<T> {
    pub r: T,
    pub g: T,
    pub b: T,
    pub a: T,
}

impl<T: Copy> Copy for Rgba<T> {

}

impl<T: Copy> Clone for Rgba<T> {
    fn clone(&self) -> (r: Self)
        ensures
            r == *self,
    {
        *self
    }
}

/// Vertex and index buffers.
#[derive(Debug, PartialEq, Eq)]
pub struct MeshGeom<T> {
    pub positions: Vec<P3<T>>,
    pub normals: Vec<P3<T>>,
    pub uvs: Vec<P2<T>>,
    pub indices: Vec<u32>,
    /// Baked colour per vertex; empty where there is none.
    pub colors: Vec<Rgba<T>>,
}

/// Two triangles over the four vertices from `base` on.
pub open spec fn quad_indices(base: int) -> Seq<u32> {
    seq![
        base as u32,
        (base + 1) as u32,
        (base + 2) as u32,
        base as u32,
        (base + 2) as u32,
        (base + 3) as u32,
    ]
}

/// The indices of face `k` of a mesh made of faces alone.
pub open spec fn face_indices(k: int) -> Seq<u32> {
    quad_indices(4 * k)
}

/// The indices of the first `n` faces.
pub open spec fn indices_of(n: int) -> Seq<u32>
    decreases n,
{
    if n <= 0 {
        Seq::empty()
    } else {
        indices_of(n - 1) + face_indices(n - 1)
    }
}

/// One normal for each of a face's vertices.
pub open spec fn four<P>(p: P) -> Seq<P> {
    seq![p, p, p, p]
}

/// What a mesh holds.
#[verifier::ext_equal]
pub struct GeomView<T> {
    pub positions: Seq<P3<T>>,
    pub normals: Seq<P3<T>>,
    pub uvs: Seq<P2<T>>,
    pub indices: Seq<u32>,
    pub colors: Seq<Rgba<T>>,
}

impl<T> View for MeshGeom<T> {
    type V = GeomView<T>;

    open spec fn view(&self) -> GeomView<T> {
        GeomView {
            positions: self.positions@,
            normals: self.normals@,
            uvs: self.uvs@,
            indices: self.indices@,
            colors: self.colors@,
        }
    }
}

/// The mesh with one more face.
pub open spec fn with_face<T>(
    g: GeomView<T>,
    corners: Quad<P3<T>>,
    normal: P3<T>,
    uvs: Quad<P2<T>>,
) -> GeomView<T> {
    GeomView {
        positions: g.positions + corners.items(),
        normals: g.normals + four(normal),
        uvs: g.uvs + uvs.items(),
        indices: g.indices + quad_indices(g.positions.len() as int),
        colors: g.colors,
    }
}

impl<T> MeshGeom<T> {
    /// Number of faces.
    pub open spec fn faces(self) -> int {
        self.positions@.len() as int / 4
    }

    /// One normal and one texture coordinate per vertex, and no more vertices
    /// than an index can name.
    pub open spec fn aligned(self) -> bool {
        &&& self.normals@.len() == self.positions@.len()
        &&& self.uvs@.len() == self.positions@.len()
        &&& self.positions@.len() <= u32::MAX
    }

    /// Whole triangles, every corner of which is a vertex.
    pub open spec fn sound(self) -> bool {
        &&& self.aligned()
        &&& self.indices@.len() % 3 == 0
        &&& forall|i: int|
            0 <= i < self.indices@.len() ==> #[trigger] self.indices@[i] < self.positions@.len()
    }

    /// Whole faces only, with the indices of exactly these faces.
    pub open spec fn wf(self) -> bool {
        &&& self.aligned()
        &&& self.positions@.len() % 4 == 0
        &&& self.indices@ == indices_of(self.faces())
    }
}

impl<T: Copy> MeshGeom<T> {
    pub fn new() -> (r: Self)
        ensures
            r.wf(),
            r.positions@ == Seq::<P3<T>>::empty(),
            r.normals@ == Seq::<P3<T>>::empty(),
            r.uvs@ == Seq::<P2<T>>::empty(),
            r.indices@ == Seq::<u32>::empty(),
            r.colors@ == Seq::<Rgba<T>>::empty(),
    {
        MeshGeom {
            positions: Vec::new(),
            normals: Vec::new(),
            uvs: Vec::new(),
            indices: Vec::new(),
            colors: Vec::new(),
        }
    }

    pub fn is_empty(&self) -> (r: bool)
        ensures
            r == (self.positions@.len() == 0),
    {
        self.positions.len() == 0
    }

    /// Appends a face: its corners, its normal at each of them, its texture
    /// coordinates, and the two triangles 0-1-2 and 0-2-3.
    pub fn push_face(&mut self, corners: Quad<P3<T>>, normal: P3<T>, uvs: Quad<P2<T>>)
        requires
            old(self).aligned(),
            old(self).positions@.len() + 4 <= u32::MAX,
        ensures
            final(self).aligned(),
            old(self).sound() ==> final(self).sound(),
            old(self).wf() ==> final(self).wf(),
            final(self)@ == with_face(old(self)@, corners, normal, uvs),
            final(self).positions@ == old(self).positions@ + corners.items(),
            final(self).normals@ == old(self).normals@ + four(normal),
            final(self).uvs@ == old(self).uvs@ + uvs.items(),
            final(self).colors == old(self).colors,
    {
        let ghost k = self.faces();
        let base: u32 = self.positions.len() as u32;
        self.positions.push(corners.a);
        self.positions.push(corners.b);
        self.positions.push(corners.c);
        self.positions.push(corners.d);
        self.normals.push(normal);
        self.normals.push(normal);
        self.normals.push(normal);
        self.normals.push(normal);
        self.uvs.push(uvs.a);
        self.uvs.push(uvs.b);
        self.uvs.push(uvs.c);
        self.uvs.push(uvs.d);
        self.indices.push(base);
        self.indices.push(base + 1);
        self.indices.push(base + 2);
        self.indices.push(base);
        self.indices.push(base + 2);
        self.indices.push(base + 3);
        assert(self.positions@ =~= old(self).positions@ + corners.items());
        assert(self.normals@ =~= old(self).normals@ + four(normal));
        assert(self.uvs@ =~= old(self).uvs@ + uvs.items());
        assert(self.indices@ =~= old(self).indices@ + quad_indices(base as int));
        assert(self.faces() == k + 1);
        proof {
            if old(self).wf() {
                assert(base == 4 * k);
            }
            if old(self).sound() {
                let n = old(self).indices@.len();
                assert forall|i: int| 0 <= i < self.indices@.len() implies #[trigger] self.indices@[i]
                    < self.positions@.len() by {
                    if i < n {
                        assert(self.indices@[i] == old(self).indices@[i]);
                    } else {
                        assert(self.indices@[i] == quad_indices(base as int)[i - n]);
                    }
                }
            }
        }
    }
}

/// Every index refers to a vertex, and there are six per face.
pub proof fn law_indices_stay_in_range(n: int, i: int)
    requires
        0 <= n,
        4 * n <= u32::MAX,
        0 <= i < indices_of(n).len(),
    ensures
        indices_of(n).len() == 6 * n,
        indices_of(n)[i] < 4 * n,
    decreases n,
{
    lemma_index_count(n);
    lemma_index_count(n - 1);
    if n > 0 {
        let before = indices_of(n - 1);
        if i < before.len() {
            law_indices_stay_in_range(n - 1, i);
        } else {
            assert(indices_of(n)[i] == face_indices(n - 1)[i - before.len()]);
        }
    }
}

proof fn lemma_index_count(n: int)
    ensures
        indices_of(n).len() == (if n <= 0 {
            0
        } else {
            6 * n
        }),
    decreases n,
{
    if n > 0 {
        lemma_index_count(n - 1);
    }
}

/// An axis-aligned box.
#[derive(Debug, PartialEq, Eq)]
pub struct Aabb<T> {
    pub x0: T,
    pub x1: T,
    pub y0: T,
    pub y1: T,
    pub z0: T,
    pub z1: T,
}

impl<T: Copy> Copy for Aabb<T> {

}

impl<T: Copy> Clone for Aabb<T> {
    fn clone(&self) -> (r: Self)
        ensures
            r == *self,
    {
        *self
    }
}

/// Zero, one and minus one.
#[derive(Debug, PartialEq, Eq)]
pub struct Units<T> {
    pub zero: T,
    pub one: T,
    pub minus_one: T,
}

impl<T: Copy> Copy for Units<T> {

}

impl<T: Copy> Clone for Units<T> {
    fn clone(&self) -> (r: Self)
        ensures
            r == *self,
    {
        *self
    }
}

/// A box with its texture extents along each axis.
#[derive(Debug, PartialEq, Eq)]
pub struct TexturedBox<T> {
    pub aabb: Aabb<T>,
    pub u_x: T,
    pub u_y: T,
    pub u_z: T,
}

impl<T: Copy> Copy for TexturedBox<T> {

}

impl<T: Copy> Clone for TexturedBox<T> {
    fn clone(&self) -> (r: Self)
        ensures
            r == *self,
    {
        *self
    }
}

/// A point from its coordinates.
pub open spec fn p3<T>(x: T, y: T, z: T) -> P3<T> {
    P3 { x, y, z }
}

/// The corners of a box's faces, up, down, +x, -x, +z, -z: each runs
/// counterclockwise as seen from outside.
pub open spec fn box_face<T>(b: Aabb<T>, k: int) -> Quad<P3<T>> {
    if k == 0 {
        Quad {
            a: p3(b.x0, b.y1, b.z1),
            b: p3(b.x1, b.y1, b.z1),
            c: p3(b.x1, b.y1, b.z0),
            d: p3(b.x0, b.y1, b.z0),
        }
    } else if k == 1 {
        Quad {
            a: p3(b.x0, b.y0, b.z0),
            b: p3(b.x1, b.y0, b.z0),
            c: p3(b.x1, b.y0, b.z1),
            d: p3(b.x0, b.y0, b.z1),
        }
    } else if k == 2 {
        Quad {
            a: p3(b.x1, b.y0, b.z1),
            b: p3(b.x1, b.y0, b.z0),
            c: p3(b.x1, b.y1, b.z0),
            d: p3(b.x1, b.y1, b.z1),
        }
    } else if k == 3 {
        Quad {
            a: p3(b.x0, b.y0, b.z0),
            b: p3(b.x0, b.y0, b.z1),
            c: p3(b.x0, b.y1, b.z1),
            d: p3(b.x0, b.y1, b.z0),
        }
    } else if k == 4 {
        Quad {
            a: p3(b.x0, b.y0, b.z1),
            b: p3(b.x1, b.y0, b.z1),
            c: p3(b.x1, b.y1, b.z1),
            d: p3(b.x0, b.y1, b.z1),
        }
    } else {
        Quad {
            a: p3(b.x1, b.y0, b.z0),
            b: p3(b.x0, b.y0, b.z0),
            c: p3(b.x0, b.y1, b.z0),
            d: p3(b.x1, b.y1, b.z0),
        }
    }
}

/// The outward normals of a box's faces.
pub open spec fn box_normal<T>(k: int, u: Units<T>) -> P3<T> {
    if k == 0 {
        p3(u.zero, u.one, u.zero)
    } else if k == 1 {
        p3(u.zero, u.minus_one, u.zero)
    } else if k == 2 {
        p3(u.one, u.zero, u.zero)
    } else if k == 3 {
        p3(u.minus_one, u.zero, u.zero)
    } else if k == 4 {
        p3(u.zero, u.zero, u.one)
    } else {
        p3(u.zero, u.zero, u.minus_one)
    }
}

/// Twice the area of a triangle along an axis: positive where its corners run
/// counterclockwise as seen against the axis.
pub open spec fn turn_along(a: P3<int>, b: P3<int>, c: P3<int>, n: P3<int>) -> int {
    let e = p3(b.x - a.x, b.y - a.y, b.z - a.z);
    let f = p3(c.x - a.x, c.y - a.y, c.z - a.z);
    n.x * (e.y * f.z - e.z * f.y) + n.y * (e.z * f.x - e.x * f.z) + n.z * (e.x * f.y - e.y * f.x)
}

/// Both triangles of every face of a box look the way of the face's normal: out
/// of the box.
pub proof fn law_box_faces_look_outward(b: Aabb<int>, k: int)
    requires
        b.x0 < b.x1,
        b.y0 < b.y1,
        b.z0 < b.z1,
        0 <= k < 6,
    ensures
        ({
            let q = box_face(b, k);
            let n = box_normal(k, Units { zero: 0int, one: 1int, minus_one: -1int });
            &&& turn_along(q.a, q.b, q.c, n) > 0
            &&& turn_along(q.a, q.c, q.d, n) > 0
        }),
{
    let q = box_face(b, k);
    let n = box_normal(k, Units { zero: 0int, one: 1int, minus_one: -1int });
    let (dx, dy, dz) = (b.x1 - b.x0, b.y1 - b.y0, b.z1 - b.z0);
    assert(dx * dy > 0 && dy * dz > 0 && dz * dx > 0) by (nonlinear_arith)
        requires
            dx > 0,
            dy > 0,
            dz > 0,
    ;
    assert(turn_along(q.a, q.b, q.c, n) > 0) by (nonlinear_arith)
        requires
            dx * dy > 0,
            dy * dz > 0,
            dz * dx > 0,
            dx == b.x1 - b.x0,
            dy == b.y1 - b.y0,
            dz == b.z1 - b.z0,
            q == box_face(b, k),
            n == box_normal(k, Units { zero: 0int, one: 1int, minus_one: -1int }),
            0 <= k < 6,
    ;
    assert(turn_along(q.a, q.c, q.d, n) > 0) by (nonlinear_arith)
        requires
            dx * dy > 0,
            dy * dz > 0,
            dz * dx > 0,
            dx == b.x1 - b.x0,
            dy == b.y1 - b.y0,
            dz == b.z1 - b.z0,
            q == box_face(b, k),
            n == box_normal(k, Units { zero: 0int, one: 1int, minus_one: -1int }),
            0 <= k < 6,
    ;
}

/// Texture coordinates spanning a face.
pub open spec fn face_uvs<T>(u_max: T, v_max: T, zero: T) -> Quad<P2<T>> {
    Quad {
        a: P2 { u: zero, v: zero },
        b: P2 { u: u_max, v: zero },
        c: P2 { u: u_max, v: v_max },
        d: P2 { u: zero, v: v_max },
    }
}

/// The texture coordinates of a box's faces follow the two axes each spans.
pub open spec fn box_uvs<T>(b: TexturedBox<T>, k: int, zero: T) -> Quad<P2<T>> {
    if k == 0 || k == 1 {
        face_uvs(b.u_x, b.u_z, zero)
    } else if k == 2 || k == 3 {
        face_uvs(b.u_z, b.u_y, zero)
    } else {
        face_uvs(b.u_x, b.u_y, zero)
    }
}

/// The vertices of a box's first `k` faces.
pub open spec fn box_positions<T>(b: Aabb<T>, k: int) -> Seq<P3<T>>
    decreases k,
{
    if k <= 0 {
        Seq::empty()
    } else {
        box_positions(b, k - 1) + box_face(b, k - 1).items()
    }
}

/// The normals of a box's first `k` faces.
pub open spec fn box_normals<T>(u: Units<T>, k: int) -> Seq<P3<T>>
    decreases k,
{
    if k <= 0 {
        Seq::empty()
    } else {
        box_normals(u, k - 1) + four(box_normal(k - 1, u))
    }
}

/// The texture coordinates of a box's first `k` faces.
pub open spec fn box_texture<T>(b: TexturedBox<T>, zero: T, k: int) -> Seq<P2<T>>
    decreases k,
{
    if k <= 0 {
        Seq::empty()
    } else {
        box_texture(b, zero, k - 1) + box_uvs(b, k - 1, zero).items()
    }
}

fn make_face<T: Copy>(b: &Aabb<T>, k: usize) -> (r: Quad<P3<T>>)
    requires
        k < 6,
    ensures
        r == box_face(*b, k as int),
{
    if k == 0 {
        Quad {
            a: P3 { x: b.x0, y: b.y1, z: b.z1 },
            b: P3 { x: b.x1, y: b.y1, z: b.z1 },
            c: P3 { x: b.x1, y: b.y1, z: b.z0 },
            d: P3 { x: b.x0, y: b.y1, z: b.z0 },
        }
    } else if k == 1 {
        Quad {
            a: P3 { x: b.x0, y: b.y0, z: b.z0 },
            b: P3 { x: b.x1, y: b.y0, z: b.z0 },
            c: P3 { x: b.x1, y: b.y0, z: b.z1 },
            d: P3 { x: b.x0, y: b.y0, z: b.z1 },
        }
    } else if k == 2 {
        Quad {
            a: P3 { x: b.x1, y: b.y0, z: b.z1 },
            b: P3 { x: b.x1, y: b.y0, z: b.z0 },
            c: P3 { x: b.x1, y: b.y1, z: b.z0 },
            d: P3 { x: b.x1, y: b.y1, z: b.z1 },
        }
    } else if k == 3 {
        Quad {
            a: P3 { x: b.x0, y: b.y0, z: b.z0 },
            b: P3 { x: b.x0, y: b.y0, z: b.z1 },
            c: P3 { x: b.x0, y: b.y1, z: b.z1 },
            d: P3 { x: b.x0, y: b.y1, z: b.z0 },
        }
    } else if k == 4 {
        Quad {
            a: P3 { x: b.x0, y: b.y0, z: b.z1 },
            b: P3 { x: b.x1, y: b.y0, z: b.z1 },
            c: P3 { x: b.x1, y: b.y1, z: b.z1 },
            d: P3 { x: b.x0, y: b.y1, z: b.z1 },
        }
    } else {
        Quad {
            a: P3 { x: b.x1, y: b.y0, z: b.z0 },
            b: P3 { x: b.x0, y: b.y0, z: b.z0 },
            c: P3 { x: b.x0, y: b.y1, z: b.z0 },
            d: P3 { x: b.x1, y: b.y1, z: b.z0 },
        }
    }
}

fn make_normal<T: Copy>(k: usize, u: &Units<T>) -> (r: P3<T>)
    requires
        k < 6,
    ensures
        r == box_normal(k as int, *u),
{
    if k == 0 {
        P3 { x: u.zero, y: u.one, z: u.zero }
    } else if k == 1 {
        P3 { x: u.zero, y: u.minus_one, z: u.zero }
    } else if k == 2 {
        P3 { x: u.one, y: u.zero, z: u.zero }
    } else if k == 3 {
        P3 { x: u.minus_one, y: u.zero, z: u.zero }
    } else if k == 4 {
        P3 { x: u.zero, y: u.zero, z: u.one }
    } else {
        P3 { x: u.zero, y: u.zero, z: u.minus_one }
    }
}

/// A face's texture coordinates: from zero to the two extents.
pub fn make_uvs<T: Copy>(u_max: T, v_max: T, zero: T) -> (r: Quad<P2<T>>)
    ensures
        r == face_uvs(u_max, v_max, zero),
{
    Quad {
        a: P2 { u: zero, v: zero },
        b: P2 { u: u_max, v: zero },
        c: P2 { u: u_max, v: v_max },
        d: P2 { u: zero, v: v_max },
    }
}

impl<T: Copy> MeshGeom<T> {
    /// Appends a box: six faces.
    pub fn append_box(&mut self, b: &TexturedBox<T>, units: &Units<T>)
        requires
            old(self).wf(),
            old(self).positions@.len() + 24 <= u32::MAX,
        ensures
            final(self).wf(),
            final(self).positions@ == old(self).positions@ + box_positions(b.aabb, 6),
            final(self).normals@ == old(self).normals@ + box_normals(*units, 6),
            final(self).uvs@ == old(self).uvs@ + box_texture(*b, units.zero, 6),
            final(self).positions@.len() == old(self).positions@.len() + 24,
            final(self).indices@.len() == old(self).indices@.len() + 36,
            final(self).colors == old(self).colors,
    {
        let ghost p0 = self.positions@;
        let ghost n0 = self.normals@;
        let ghost t0 = self.uvs@;
        let ghost i0 = self.indices@.len();
        let ghost c0 = self.colors;
        assert(p0 + box_positions(b.aabb, 0) =~= p0);
        assert(n0 + box_normals(*units, 0) =~= n0);
        assert(t0 + box_texture(*b, units.zero, 0) =~= t0);
        for k in 0..6usize
            invariant
                self.wf(),
                p0.len() + 24 <= u32::MAX,
                self.positions@.len() == p0.len() + 4 * k,
                self.positions@ == p0 + box_positions(b.aabb, k as int),
                self.normals@ == n0 + box_normals(*units, k as int),
                self.uvs@ == t0 + box_texture(*b, units.zero, k as int),
                self.indices@.len() == i0 + 6 * k,
                self.colors == c0,
        {
            let uvs = if k < 2 {
                make_uvs(b.u_x, b.u_z, units.zero)
            } else if k < 4 {
                make_uvs(b.u_z, b.u_y, units.zero)
            } else {
                make_uvs(b.u_x, b.u_y, units.zero)
            };
            self.push_face(make_face(&b.aabb, k), make_normal(k, units), uvs);
            assert(self.positions@ =~= p0 + box_positions(b.aabb, k + 1));
            assert(self.normals@ =~= n0 + box_normals(*units, k + 1));
            assert(self.uvs@ =~= t0 + box_texture(*b, units.zero, k + 1));
        }
    }
}

/// The vertices of the first `n` boxes.
pub open spec fn merged_positions<T>(boxes: Seq<TexturedBox<T>>, n: int) -> Seq<P3<T>>
    decreases n,
{
    if n <= 0 {
        Seq::empty()
    } else {
        merged_positions(boxes, n - 1) + box_positions(boxes[n - 1].aabb, 6)
    }
}

/// The normals of `n` boxes.
pub open spec fn merged_normals<T>(u: Units<T>, n: int) -> Seq<P3<T>>
    decreases n,
{
    if n <= 0 {
        Seq::empty()
    } else {
        merged_normals(u, n - 1) + box_normals(u, 6)
    }
}

/// The texture coordinates of the first `n` boxes.
pub open spec fn merged_texture<T>(boxes: Seq<TexturedBox<T>>, zero: T, n: int) -> Seq<P2<T>>
    decreases n,
{
    if n <= 0 {
        Seq::empty()
    } else {
        merged_texture(boxes, zero, n - 1) + box_texture(boxes[n - 1], zero, 6)
    }
}

/// The mesh of merged boxes: the boxes in order, without colours.
pub open spec fn merged_boxes<T>(boxes: Seq<TexturedBox<T>>, u: Units<T>) -> GeomView<T> {
    GeomView {
        positions: merged_positions(boxes, boxes.len() as int),
        normals: merged_normals(u, boxes.len() as int),
        uvs: merged_texture(boxes, u.zero, boxes.len() as int),
        indices: indices_of(6 * boxes.len() as int),
        colors: Seq::empty(),
    }
}

/// Merges boxes into one mesh.
pub fn build_merged_boxes<T: Copy>(boxes: &Vec<TexturedBox<T>>, units: &Units<T>) -> (r: MeshGeom<T>)
    requires
        boxes@.len() * 24 <= u32::MAX,
    ensures
        r.wf(),
        r@ == merged_boxes(boxes@, *units),
        r.positions@.len() == 24 * boxes@.len(),
        r.indices@.len() == 36 * boxes@.len(),
{
    let mut geom = MeshGeom::new();
    for i in 0..boxes.len()
        invariant
            boxes@.len() * 24 <= u32::MAX,
            geom.wf(),
            geom.positions@ == merged_positions(boxes@, i as int),
            geom.normals@ == merged_normals(*units, i as int),
            geom.uvs@ == merged_texture(boxes@, units.zero, i as int),
            geom.positions@.len() == 24 * i,
            geom.indices@.len() == 36 * i,
            geom.colors@ == Seq::<Rgba<T>>::empty(),
    {
        geom.append_box(&boxes[i], units);
    }
    assert(geom.faces() == 6 * boxes@.len());
    geom
}

/// The point is a corner of the box.
pub open spec fn is_corner<T>(b: Aabb<T>, p: P3<T>) -> bool {
    &&& p.x == b.x0 || p.x == b.x1
    &&& p.y == b.y0 || p.y == b.y1
    &&& p.z == b.z0 || p.z == b.z1
}

/// Every vertex of a merged mesh is a corner of the box it came from.
pub proof fn law_vertices_are_corners<T>(boxes: Seq<TexturedBox<T>>, n: int, i: int)
    requires
        0 <= n <= boxes.len(),
        0 <= i < merged_positions(boxes, n).len(),
    ensures
        merged_positions(boxes, n).len() == 24 * n,
        is_corner(boxes[i / 24].aabb, merged_positions(boxes, n)[i]),
    decreases n,
{
    lemma_merged_count(boxes, n);
    lemma_merged_count(boxes, n - 1);
    if n > 0 {
        let before = merged_positions(boxes, n - 1);
        let b = boxes[n - 1].aabb;
        if i < before.len() {
            law_vertices_are_corners(boxes, n - 1, i);
            assert(merged_positions(boxes, n)[i] == before[i]);
        } else {
            let j = i - before.len();
            lemma_box_corner(b, 6, j);
            assert(merged_positions(boxes, n)[i] == box_positions(b, 6)[j]);
        }
    }
}

proof fn lemma_merged_count<T>(boxes: Seq<TexturedBox<T>>, n: int)
    requires
        n <= boxes.len(),
    ensures
        merged_positions(boxes, n).len() == (if n <= 0 {
            0
        } else {
            24 * n
        }),
    decreases n,
{
    if n > 0 {
        lemma_merged_count(boxes, n - 1);
        lemma_box_count(boxes[n - 1].aabb, 6);
    }
}

proof fn lemma_box_count<T>(b: Aabb<T>, k: int)
    ensures
        box_positions(b, k).len() == (if k <= 0 {
            0
        } else {
            4 * k
        }),
    decreases k,
{
    if k > 0 {
        lemma_box_count(b, k - 1);
    }
}

proof fn lemma_box_corner<T>(b: Aabb<T>, k: int, j: int)
    requires
        0 <= k <= 6,
        0 <= j < box_positions(b, k).len(),
    ensures
        is_corner(b, box_positions(b, k)[j]),
    decreases k,
{
    if k > 0 {
        let before = box_positions(b, k - 1);
        if j < before.len() {
            lemma_box_corner(b, k - 1, j);
        } else {
            assert(box_positions(b, k)[j] == box_face(b, k - 1).items()[j - before.len()]);
        }
    }
}

/// A sign's panel: one face with texture coordinates from zero to one.
pub fn build_billboard_quad<T: Copy>(corners: Quad<P3<T>>, units: &Units<T>) -> (r: MeshGeom<T>)
    ensures
        r.wf(),
        r.positions@ == corners.items(),
        r.normals@ == four(p3(units.zero, units.zero, units.one)),
        r.uvs@ == face_uvs(units.one, units.one, units.zero).items(),
        r.indices@ == face_indices(0),
{
    let mut geom = MeshGeom::new();
    geom.push_face(
        corners,
        P3 { x: units.zero, y: units.zero, z: units.one },
        make_uvs(units.one, units.one, units.zero),
    );
    assert(geom.positions@ =~= corners.items());
    assert(geom.normals@ =~= four(p3(units.zero, units.zero, units.one)));
    assert(geom.uvs@ =~= face_uvs(units.one, units.one, units.zero).items());
    assert(geom.indices@ =~= face_indices(0));
    geom
}

/// A mesh made of whole faces holds whole triangles within its vertices.
pub proof fn law_face_meshes_are_sound<T>(geom: MeshGeom<T>)
    requires
        geom.wf(),
    ensures
        geom.sound(),
        geom.indices@.len() == 6 * geom.faces(),
{
    let n = geom.faces();
    lemma_index_count(n);
    assert forall|i: int| 0 <= i < geom.indices@.len() implies #[trigger] geom.indices@[i]
        < geom.positions@.len() by {
        law_indices_stay_in_range(n, i);
    }
}

/// A face's light as a colour: grey and opaque.
pub open spec fn lit<T>(light: T, one: T) -> Rgba<T> {
    Rgba { r: light, g: light, b: light, a: one }
}

/// Gives each vertex of each face the face's light.
pub fn bake_face_colors<T: Copy>(geom: &mut MeshGeom<T>, light: &Vec<T>, one: T)
    requires
        old(geom).wf(),
        light@.len() == old(geom).faces(),
    ensures
        final(geom).wf(),
        final(geom).colors@.len() == final(geom).positions@.len(),
        forall|i: int|
            0 <= i < final(geom).colors@.len() ==> #[trigger] final(geom).colors@[i] == lit(
                light@[i / 4],
                one,
            ),
        final(geom).positions == old(geom).positions,
        final(geom).normals == old(geom).normals,
        final(geom).uvs == old(geom).uvs,
        final(geom).indices == old(geom).indices,
{
    let mut out: Vec<Rgba<T>> = Vec::new();
    for f in 0..light.len()
        invariant
            out@.len() == 4 * f,
            forall|i: int| 0 <= i < out@.len() ==> #[trigger] out@[i] == lit(light@[i / 4], one),
    {
        let c = Rgba { r: light[f], g: light[f], b: light[f], a: one };
        out.push(c);
        out.push(c);
        out.push(c);
        out.push(c);
    }
    geom.colors = out;
}

// ---- window meshes --------------------------------------------------------------

/// A window panel: its corners, the way it faces, its texture extents and the
/// length of its horizontal axis before scaling.
#[derive(Debug, PartialEq, Eq)]
pub struct Panel<T> {
    pub corners: Quad<P3<T>>,
    pub normal: P3<T>,
    pub u_max: T,
    pub v_max: T,
    pub axis_len: F32,
}

/// Bit pattern of 0.0001: a shorter axis means a panel that faces straight up
/// or down.
pub const PANEL_AXIS_MIN_BITS: u32 = 0x38d1_b717;

impl<T> Panel<T> {
    /// The panel has a horizontal axis, so it can be drawn.
    pub open spec fn upright(self) -> bool {
        !self.axis_len.below(F32 { bits: PANEL_AXIS_MIN_BITS })
    }
}

/// The upright panels among the first `n`.
pub open spec fn upright_panels<T>(panels: Seq<Panel<T>>, n: int) -> Seq<Panel<T>>
    decreases n,
{
    if n <= 0 {
        Seq::empty()
    } else if panels[n - 1].upright() {
        upright_panels(panels, n - 1).push(panels[n - 1])
    } else {
        upright_panels(panels, n - 1)
    }
}

/// The vertices of the first `n` panels.
pub open spec fn panel_positions<T>(panels: Seq<Panel<T>>, n: int) -> Seq<P3<T>>
    decreases n,
{
    if n <= 0 {
        Seq::empty()
    } else {
        panel_positions(panels, n - 1) + panels[n - 1].corners.items()
    }
}

/// The normals of the first `n` panels.
pub open spec fn panel_normals<T>(panels: Seq<Panel<T>>, n: int) -> Seq<P3<T>>
    decreases n,
{
    if n <= 0 {
        Seq::empty()
    } else {
        panel_normals(panels, n - 1) + four(panels[n - 1].normal)
    }
}

/// The texture coordinates of the first `n` panels.
pub open spec fn panel_uvs<T>(panels: Seq<Panel<T>>, n: int, zero: T) -> Seq<P2<T>>
    decreases n,
{
    if n <= 0 {
        Seq::empty()
    } else {
        panel_uvs(panels, n - 1, zero) + face_uvs(
            panels[n - 1].u_max,
            panels[n - 1].v_max,
            zero,
        ).items()
    }
}

proof fn lemma_panels_of_prefix<T>(kept: Seq<Panel<T>>, p: Panel<T>, n: int, zero: T)
    requires
        n <= kept.len(),
    ensures
        panel_positions(kept.push(p), n) == panel_positions(kept, n),
        panel_normals(kept.push(p), n) == panel_normals(kept, n),
        panel_uvs(kept.push(p), n, zero) == panel_uvs(kept, n, zero),
    decreases n,
{
    if n > 0 {
        lemma_panels_of_prefix(kept, p, n - 1, zero);
        assert(kept.push(p)[n - 1] == kept[n - 1]);
    }
}

/// Merges the upright window panels into one mesh.
pub fn build_window_mesh<T: Copy>(panels: &Vec<Panel<T>>, zero: T) -> (r: MeshGeom<T>)
    requires
        4 * panels@.len() <= u32::MAX,
    ensures
        r.wf(),
        ({
            let kept = upright_panels(panels@, panels@.len() as int);
            &&& r.positions@ == panel_positions(kept, kept.len() as int)
            &&& r.normals@ == panel_normals(kept, kept.len() as int)
            &&& r.uvs@ == panel_uvs(kept, kept.len() as int, zero)
            &&& r.faces() == kept.len()
        }),
        r.colors@ == Seq::<Rgba<T>>::empty(),
{
    let mut geom = MeshGeom::new();
    for i in 0..panels.len()
        invariant
            4 * panels@.len() <= u32::MAX,
            geom.wf(),
            upright_panels(panels@, i as int).len() <= i,
            geom.positions@.len() == 4 * upright_panels(panels@, i as int).len(),
            geom.positions@ == panel_positions(
                upright_panels(panels@, i as int),
                upright_panels(panels@, i as int).len() as int,
            ),
            geom.normals@ == panel_normals(
                upright_panels(panels@, i as int),
                upright_panels(panels@, i as int).len() as int,
            ),
            geom.uvs@ == panel_uvs(
                upright_panels(panels@, i as int),
                upright_panels(panels@, i as int).len() as int,
                zero,
            ),
            geom.colors@ == Seq::<Rgba<T>>::empty(),
    {
        let p = &panels[i];
        if !p.axis_len.lt(F32::from_bits(PANEL_AXIS_MIN_BITS)) {
            proof {
                let kept = upright_panels(panels@, i as int);
                lemma_panels_of_prefix(kept, panels@[i as int], kept.len() as int, zero);
                assert(kept.push(panels@[i as int])[kept.len() as int] == panels@[i as int]);
            }
            geom.push_face(p.corners, p.normal, make_uvs(p.u_max, p.v_max, zero));
        }
    }
    geom
}

// ---- wall families ------------------------------------------------------------

/// Walls that share a material.
#[derive(Clone, Copy, Debug, PartialEq, Eq, Structural)]
pub enum WallFamily {
    Perimeter,
    Cover,
    Building,
    Roof,
}

/// What a wall's family depends on, in metres.
#[derive(Clone, Copy, Debug, PartialEq, Eq, Structural)]
pub struct WallMeasures {
    pub height: F32,
    /// How far each of the four sides is from the arena's edge.
    pub gap_x0: F32,
    pub gap_x1: F32,
    pub gap_z0: F32,
    pub gap_z1: F32,
    pub y0: F32,
    pub y1: F32,
}

/// Bit pattern of 5.0: least height of a perimeter wall.
pub const PERIMETER_HEIGHT_BITS: u32 = 0x40a0_0000;

/// Bit pattern of 1.5: how close to the edge a perimeter wall stands.
pub const PERIMETER_EDGE_BITS: u32 = 0x3fc0_0000;

/// Bit pattern of 2.5: what starts above this is a roof.
pub const ROOF_BASE_BITS: u32 = 0x4020_0000;

/// Bit pattern of 2.0: what ends below this is cover.
pub const COVER_TOP_BITS: u32 = 0x4000_0000;

/// The family of a wall: perimeter before roof before cover before building.
pub open spec fn family_of(m: WallMeasures) -> WallFamily {
    let edge = F32 { bits: PERIMETER_EDGE_BITS };
    let near = m.gap_x0.at_most(edge) || m.gap_x1.at_most(edge) || m.gap_z0.at_most(edge)
        || m.gap_z1.at_most(edge);
    if (F32 { bits: PERIMETER_HEIGHT_BITS }).at_most(m.height) && near {
        WallFamily::Perimeter
    } else if (F32 { bits: ROOF_BASE_BITS }).below(m.y0) {
        WallFamily::Roof
    } else if m.y1.below(F32 { bits: COVER_TOP_BITS }) {
        WallFamily::Cover
    } else {
        WallFamily::Building
    }
}

pub fn classify_wall(m: &WallMeasures) -> (r: WallFamily)
    ensures
        r == family_of(*m),
{
    let edge = F32::from_bits(PERIMETER_EDGE_BITS);
    let near: bool = m.gap_x0.le(edge) || m.gap_x1.le(edge) || m.gap_z0.le(edge) || m.gap_z1.le(
        edge,
    );
    if F32::from_bits(PERIMETER_HEIGHT_BITS).le(m.height) && near {
        WallFamily::Perimeter
    } else if F32::from_bits(ROOF_BASE_BITS).lt(m.y0) {
        WallFamily::Roof
    } else if m.y1.lt(F32::from_bits(COVER_TOP_BITS)) {
        WallFamily::Cover
    } else {
        WallFamily::Building
    }
}

/// Place of a family in the lists that have one entry per family.
pub open spec fn family_place(f: WallFamily) -> int {
    match f {
        WallFamily::Perimeter => 0,
        WallFamily::Cover => 1,
        WallFamily::Building => 2,
        WallFamily::Roof => 3,
    }
}

pub fn family_index(f: WallFamily) -> (r: usize)
    ensures
        r == family_place(f),
        r < 4,
{
    match f {
        WallFamily::Perimeter => 0,
        WallFamily::Cover => 1,
        WallFamily::Building => 2,
        WallFamily::Roof => 3,
    }
}

/// Which of the first `n` walls belong to family `f`, in order.
pub open spec fn members<T>(walls: Seq<(WallMeasures, TexturedBox<T>)>, f: WallFamily, n: int) -> Seq<
    TexturedBox<T>,
>
    decreases n,
{
    if n <= 0 {
        Seq::empty()
    } else if family_of(walls[n - 1].0) == f {
        members(walls, f, n - 1).push(walls[n - 1].1)
    } else {
        members(walls, f, n - 1)
    }
}

fn collect_family<T: Copy>(walls: &Vec<(WallMeasures, TexturedBox<T>)>, f: WallFamily) -> (r: Vec<TexturedBox<T>>)
    ensures
        r@ == members(walls@, f, walls@.len() as int),
        r@.len() <= walls@.len(),
{
    let mut out: Vec<TexturedBox<T>> = Vec::new();
    for i in 0..walls.len()
        invariant
            out@ == members(walls@, f, i as int),
            out@.len() <= i,
    {
        if classify_wall(&walls[i].0) == f {
            out.push(walls[i].1);
        }
    }
    out
}

/// One mesh per family.
#[derive(Debug, PartialEq, Eq)]
pub struct FamilyMeshes<T> {
    pub perimeter: MeshGeom<T>,
    pub cover: MeshGeom<T>,
    pub building: MeshGeom<T>,
    pub roof: MeshGeom<T>,
}

/// The mesh of a family: its walls, in order, merged.
pub open spec fn family_mesh<T>(
    walls: Seq<(WallMeasures, TexturedBox<T>)>,
    f: WallFamily,
    u: Units<T>,
) -> GeomView<T> {
    merged_boxes(members(walls, f, walls.len() as int), u)
}

/// Groups walls by the family that their measures give, and merges each group.
pub fn build_family_meshes<T: Copy>(
    walls: &Vec<(WallMeasures, TexturedBox<T>)>,
    units: &Units<T>,
) -> (r: FamilyMeshes<T>)
    requires
        walls@.len() * 24 <= u32::MAX,
    ensures
        r.perimeter.wf(),
        r.perimeter@ == family_mesh(walls@, WallFamily::Perimeter, *units),
        r.cover.wf(),
        r.cover@ == family_mesh(walls@, WallFamily::Cover, *units),
        r.building.wf(),
        r.building@ == family_mesh(walls@, WallFamily::Building, *units),
        r.roof.wf(),
        r.roof@ == family_mesh(walls@, WallFamily::Roof, *units),
{
    FamilyMeshes {
        perimeter: build_merged_boxes(&collect_family(walls, WallFamily::Perimeter), units),
        cover: build_merged_boxes(&collect_family(walls, WallFamily::Cover), units),
        building: build_merged_boxes(&collect_family(walls, WallFamily::Building), units),
        roof: build_merged_boxes(&collect_family(walls, WallFamily::Roof), units),
    }
}

/// Every wall lands in exactly one family: the groups' sizes add up.
pub proof fn law_families_partition_the_walls<T>(walls: Seq<(WallMeasures, TexturedBox<T>)>, n: int)
    requires
        0 <= n <= walls.len(),
    ensures
        members(walls, WallFamily::Perimeter, n).len() + members(walls, WallFamily::Cover, n).len()
            + members(walls, WallFamily::Building, n).len() + members(
            walls,
            WallFamily::Roof,
            n,
        ).len() == n,
    decreases n,
{
    if n > 0 {
        law_families_partition_the_walls(walls, n - 1);
    }
}

/// Every wall is drawn in exactly one family's mesh: the meshes together have the
/// vertices and the indices of all the walls.
pub proof fn law_family_meshes_draw_every_wall_once<T>(
    walls: Seq<(WallMeasures, TexturedBox<T>)>,
    u: Units<T>,
)
    ensures
        ({
            let p = family_mesh(walls, WallFamily::Perimeter, u);
            let c = family_mesh(walls, WallFamily::Cover, u);
            let b = family_mesh(walls, WallFamily::Building, u);
            let r = family_mesh(walls, WallFamily::Roof, u);
            &&& p.positions.len() + c.positions.len() + b.positions.len() + r.positions.len() == 24
                * walls.len()
            &&& p.indices.len() + c.indices.len() + b.indices.len() + r.indices.len() == 36
                * walls.len()
        }),
{
    let n = walls.len() as int;
    law_families_partition_the_walls(walls, n);
    lemma_family_mesh_size(walls, WallFamily::Perimeter, u);
    lemma_family_mesh_size(walls, WallFamily::Cover, u);
    lemma_family_mesh_size(walls, WallFamily::Building, u);
    lemma_family_mesh_size(walls, WallFamily::Roof, u);
}

proof fn lemma_family_mesh_size<T>(
    walls: Seq<(WallMeasures, TexturedBox<T>)>,
    f: WallFamily,
    u: Units<T>,
)
    ensures
        family_mesh(walls, f, u).positions.len() == 24 * members(walls, f, walls.len() as int).len(),
        family_mesh(walls, f, u).indices.len() == 36 * members(walls, f, walls.len() as int).len(),
{
    let own = members(walls, f, walls.len() as int);
    lemma_merged_count(own, own.len() as int);
    lemma_index_count(6 * own.len() as int);
}

/// The box is that of one of the first `n` walls, which belongs to family `f`.
pub open spec fn is_wall_of<T>(
    walls: Seq<(WallMeasures, TexturedBox<T>)>,
    f: WallFamily,
    n: int,
    b: TexturedBox<T>,
) -> bool {
    exists|k: int| 0 <= k < n && family_of((#[trigger] walls[k]).0) == f && walls[k].1 == b
}

/// A family's mesh is made of the walls that belong to it, and of no others.
pub proof fn law_walls_keep_to_their_family<T>(
    walls: Seq<(WallMeasures, TexturedBox<T>)>,
    f: WallFamily,
    n: int,
    b: TexturedBox<T>,
)
    requires
        0 <= n <= walls.len(),
    ensures
        members(walls, f, n).contains(b) <==> is_wall_of(walls, f, n, b),
    decreases n,
{
    if n > 0 {
        law_walls_keep_to_their_family(walls, f, n - 1, b);
        let before = members(walls, f, n - 1);
        let now = members(walls, f, n);
        if before.contains(b) {
            let j = choose|j: int| 0 <= j < before.len() && before[j] == b;
            assert(now[j] == b);
        }
        if now.contains(b) && !before.contains(b) {
            let j = choose|j: int| 0 <= j < now.len() && now[j] == b;
            assert(j == before.len());
            assert(walls[n - 1].1 == b);
        }
        if is_wall_of(walls, f, n, b) && !before.contains(b) {
            assert(now[before.len() as int] == b);
        }
    }
}

// ---- windows ------------------------------------------------------------------

/// Most windows on a map.
pub const MAX_WINDOWS_PER_MAP: usize = 512;

/// A product modulo 2^32.
pub open spec fn wrapped_mul(a: u32, b: u32) -> u32 {
    ((a * b) % 0x1_0000_0000) as u32
}

/// A sum modulo 2^32.
pub open spec fn wrapped_sum(a: u32, b: u32) -> u32 {
    ((a + b) % 0x1_0000_0000) as u32
}

fn times(a: u32, b: u32) -> (r: u32)
    ensures
        r == wrapped_mul(a, b),
{
    assert((a * b) % 0x1_0000_0000 < 0x1_0000_0000 && (a * b) % 0x1_0000_0000 >= 0);
    a.wrapping_mul(b)
}

fn plus(a: u32, b: u32) -> (r: u32)
    ensures
        r == wrapped_sum(a, b),
{
    a.wrapping_add(b)
}

/// A scrambling of 32 bits.
pub open spec fn scrambled(n: u32) -> u32 {
    let a = wrapped_mul(n, 2654435761);
    let b = a ^ (a >> 16u32);
    let c = wrapped_mul(b, 2246822519);
    c ^ (c >> 13u32)
}

pub fn hash_u32(n: u32) -> (r: u32)
    ensures
        r == scrambled(n),
{
    let mut n: u32 = times(n, 2654435761);
    n = n ^ (n >> 16u32);
    n = times(n, 2246822519);
    n ^ (n >> 13u32)
}

/// Bit pattern of 2.5: least height of a wall with windows, in metres.
pub const WINDOW_MIN_HEIGHT_BITS: u32 = 0x4020_0000;

/// Bit pattern of 0.9: height of a window.
pub const WINDOW_H_BITS: u32 = 0x3f66_6666;

/// Bit pattern of 0.7 + 0.5: least width of a face with windows.
pub const WINDOW_FACE_BITS: u32 = 0x3f99_999a;

/// What the windows of a wall depend on.
#[derive(Clone, Copy, Debug, PartialEq, Eq, Structural)]
pub struct WallFront {
    pub family: WallFamily,
    pub height: F32,
    /// Height above the ground floor.
    pub upper: F32,
    /// Widths of the faces across z, and of those across x.
    pub width_z: F32,
    pub width_x: F32,
    /// Most columns on the faces across z, and on those across x.
    pub cols_z: u32,
    pub cols_x: u32,
    /// Most rows.
    pub rows: u32,
}

impl WallFront {
    /// At least one row and column.
    pub open spec fn wf(self) -> bool {
        &&& self.cols_z >= 1
        &&& self.cols_x >= 1
        &&& self.rows >= 1
    }

    /// A building wall tall enough for windows.
    pub open spec fn eligible(self) -> bool {
        self.family == WallFamily::Building && !self.height.below(
            F32 { bits: WINDOW_MIN_HEIGHT_BITS },
        )
    }

    /// Room for a window row above the ground floor.
    pub open spec fn has_rows(self) -> bool {
        !self.upper.below(F32 { bits: WINDOW_H_BITS })
    }

    /// Face `face` is wide enough. Faces count +z, -z, +x, -x.
    pub open spec fn wide(self, face: int) -> bool {
        let width = if face < 2 {
            self.width_z
        } else {
            self.width_x
        };
        !width.below(F32 { bits: WINDOW_FACE_BITS })
    }

    /// Most columns on face `face`.
    pub open spec fn max_cols(self, face: int) -> u32 {
        if face < 2 {
            self.cols_z
        } else {
            self.cols_x
        }
    }
}

/// The seed of a face.
pub open spec fn face_seed(wall: int, face: int) -> u32 {
    wrapped_sum(
        wrapped_mul((wall % 0x1_0000_0000) as u32, 2654435761),
        wrapped_mul(face as u32, 1597334677),
    )
}

/// A window: its wall, its face, and its cell in the face's grid.
#[derive(Clone, Copy, Debug, PartialEq, Eq, Structural)]
pub struct SlitCell {
    pub wall: usize,
    pub face: usize,
    pub row: u32,
    pub col: u32,
    pub rows: u32,
    pub cols: u32,
}

/// A cell stays dark in about one case in seven.
pub open spec fn cell_is_dark(seed: u32, row: u32, col: u32) -> bool {
    scrambled(wrapped_sum(seed, wrapped_sum(wrapped_mul(row, 31), wrapped_mul(col, 17)))) % 7 == 0
}

/// The windows among the first `n` cells of a face's grid, row by row.
pub open spec fn grid_slits(
    seed: u32,
    wall: int,
    face: int,
    rows: u32,
    cols: u32,
    n: int,
) -> Seq<SlitCell>
    decreases n,
{
    if n <= 0 {
        Seq::empty()
    } else {
        let before = grid_slits(seed, wall, face, rows, cols, n - 1);
        let row = ((n - 1) / (cols as int)) as u32;
        let col = ((n - 1) % (cols as int)) as u32;
        if cell_is_dark(seed, row, col) {
            before
        } else {
            before.push(
                SlitCell {
                    wall: wall as usize,
                    face: face as usize,
                    row,
                    col,
                    rows,
                    cols,
                },
            )
        }
    }
}

/// The windows of a face. About one face in five has none; the others get a grid
/// whose size the face's hash decides.
pub open spec fn face_slits(front: WallFront, wall: int, face: int) -> Seq<SlitCell> {
    let seed = face_seed(wall, face);
    let h = scrambled(seed);
    if !front.eligible() || !front.wide(face) || h % 5 == 0 || !front.has_rows() {
        Seq::empty()
    } else {
        let cols = (1 + h % front.max_cols(face)) as u32;
        let rows = (1 + (h >> 8u32) % front.rows) as u32;
        grid_slits(seed, wall, face, rows, cols, rows * cols)
    }
}

/// The windows of a wall's first `f` faces.
pub open spec fn wall_slits(front: WallFront, wall: int, f: int) -> Seq<SlitCell>
    decreases f,
{
    if f <= 0 {
        Seq::empty()
    } else {
        wall_slits(front, wall, f - 1) + face_slits(front, wall, f - 1)
    }
}

/// The windows of the first `n` walls.
pub open spec fn all_slits(fronts: Seq<WallFront>, n: int) -> Seq<SlitCell>
    decreases n,
{
    if n <= 0 {
        Seq::empty()
    } else {
        all_slits(fronts, n - 1) + wall_slits(fronts[n - 1], n - 1, 4)
    }
}

/// At most the first `MAX_WINDOWS_PER_MAP` windows.
pub open spec fn capped(s: Seq<SlitCell>) -> Seq<SlitCell> {
    if s.len() > MAX_WINDOWS_PER_MAP {
        s.take(MAX_WINDOWS_PER_MAP as int)
    } else {
        s
    }
}

fn add_face(
    out: &mut Vec<SlitCell>,
    front: &WallFront,
    wall: usize,
    face: usize,
    Ghost(before): Ghost<Seq<SlitCell>>,
)
    requires
        face < 4,
        front.wf(),
        old(out)@ == capped(before),
    ensures
        final(out)@ == capped(before + face_slits(*front, wall as int, face as int)),
{
    let seed: u32 = plus(
        times((wall as u64 % 0x1_0000_0000) as u32, 2654435761),
        times(face as u32, 1597334677),
    );
    assert(seed == face_seed(wall as int, face as int));
    let h: u32 = hash_u32(seed);
    let eligible: bool = matches!(front.family, WallFamily::Building) && !front.height.lt(
        F32::from_bits(WINDOW_MIN_HEIGHT_BITS),
    );
    let width = if face < 2 {
        front.width_z
    } else {
        front.width_x
    };
    let wide: bool = !width.lt(F32::from_bits(WINDOW_FACE_BITS));
    let has_rows: bool = !front.upper.lt(F32::from_bits(WINDOW_H_BITS));
    let max_cols: u32 = if face < 2 { front.cols_z } else { front.cols_x };
    if !eligible || !wide || h % 5 == 0 || !has_rows {
        assert(before + face_slits(*front, wall as int, face as int) =~= before);
        return;
    }
    let cols: u32 = 1 + h % max_cols;
    let rows: u32 = 1 + (h >> 8u32) % front.rows;
    let ghost at = |n: int| grid_slits(seed, wall as int, face as int, rows, cols, n);
    assert(0 * cols == 0) by (nonlinear_arith);
    assert(before + at(0) =~= before);
    let mut row: u32 = 0;
    while row < rows
        invariant
            row <= rows,
            at == (|n: int| grid_slits(seed, wall as int, face as int, rows, cols, n)),
            out@ == capped(before + at(row * cols)),
            face_slits(*front, wall as int, face as int) == at(rows * cols),
        decreases rows - row,
    {
        let mut col: u32 = 0;
        while col < cols
            invariant
                row < rows,
                col <= cols,
                at == (|n: int| grid_slits(seed, wall as int, face as int, rows, cols, n)),
                out@ == capped(before + at(row * cols + col)),
                face_slits(*front, wall as int, face as int) == at(rows * cols),
            decreases cols - col,
        {
            let ghost n = row * cols + col;
            proof {
                lemma_cell_number(row as int, col as int, rows as int, cols as int);
            }
            let ghost now = before + at(n);
            if out.len() >= MAX_WINDOWS_PER_MAP {
                proof {
                    lemma_grid_grows(seed, wall as int, face as int, rows, cols, n, rows * cols);
                    assert(out@ =~= capped(before + at(rows * cols)));
                }
                return;
            }
            let cell: u32 = hash_u32(plus(seed, plus(times(row, 31), times(col, 17))));
            if cell % 7 != 0 {
                let slit = SlitCell { wall, face, row, col, rows, cols };
                assert(before + at(n + 1) =~= now.push(slit));
                out.push(slit);
                assert(out@ =~= capped(now.push(slit)));
            }
            col += 1;
        }
        assert((row + 1) * cols == row * cols + cols) by (nonlinear_arith);
        row += 1;
    }
}

/// Cell `col` of row `row` has the number that its row and column are read off.
proof fn lemma_cell_number(row: int, col: int, rows: int, cols: int)
    requires
        0 <= row < rows,
        0 <= col < cols,
    ensures
        (row * cols + col) / cols == row,
        (row * cols + col) % cols == col,
        0 <= row * cols + col < rows * cols,
{
    vstd::arithmetic::div_mod::lemma_fundamental_div_mod_converse(row * cols + col, cols, row, col);
    assert(0 <= row * cols && row * cols + cols <= rows * cols) by (nonlinear_arith)
        requires
            0 <= row < rows,
            0 < cols,
    ;
}

/// The windows of more cells begin with those of fewer.
proof fn lemma_grid_grows(seed: u32, wall: int, face: int, rows: u32, cols: u32, n: int, m: int)
    requires
        n <= m,
    ensures
        grid_slits(seed, wall, face, rows, cols, n).is_prefix_of(
            grid_slits(seed, wall, face, rows, cols, m),
        ),
    decreases m - n,
{
    if n < m {
        lemma_grid_grows(seed, wall, face, rows, cols, n, m - 1);
    }
}

/// Places the windows of a map. The layout depends on each wall's place and
/// measures alone, and never exceeds the cap.
pub fn place_window_slits(fronts: &Vec<WallFront>) -> (r: Vec<SlitCell>)
    requires
        forall|i: int| 0 <= i < fronts@.len() ==> (#[trigger] fronts@[i]).wf(),
    ensures
        r@ == capped(all_slits(fronts@, fronts@.len() as int)),
        r@.len() <= MAX_WINDOWS_PER_MAP,
{
    let mut out: Vec<SlitCell> = Vec::new();
    for i in 0..fronts.len()
        invariant
            forall|i: int| 0 <= i < fronts@.len() ==> (#[trigger] fronts@[i]).wf(),
            out@ == capped(all_slits(fronts@, i as int)),
    {
        let ghost before = all_slits(fronts@, i as int);
        let front = fronts[i];
        assert(before + wall_slits(front, i as int, 0) =~= before);
        for face in 0..4usize
            invariant
                front.wf(),
                out@ == capped(before + wall_slits(front, i as int, face as int)),
        {
            add_face(
                &mut out,
                &front,
                i,
                face,
                Ghost(before + wall_slits(front, i as int, face as int)),
            );
            assert(before + wall_slits(front, i as int, face as int) + face_slits(
                front,
                i as int,
                face as int,
            ) =~= before + wall_slits(front, i as int, face + 1));
        }
    }
    out
}

/// The layout depends on each wall's place and measures alone: a map with more
/// walls begins with the windows of the map with fewer, and both stay within the
/// cap.
pub proof fn law_more_walls_keep_the_windows(fewer: Seq<WallFront>, more: Seq<WallFront>)
    requires
        fewer.is_prefix_of(more),
    ensures
        capped(all_slits(fewer, fewer.len() as int)).is_prefix_of(
            capped(all_slits(more, more.len() as int)),
        ),
        capped(all_slits(more, more.len() as int)).len() <= MAX_WINDOWS_PER_MAP,
{
    lemma_same_walls(fewer, more, fewer.len() as int);
    lemma_slits_grow(more, fewer.len() as int, more.len() as int);
}

proof fn lemma_same_walls(fewer: Seq<WallFront>, more: Seq<WallFront>, n: int)
    requires
        fewer.is_prefix_of(more),
        n <= fewer.len(),
    ensures
        all_slits(fewer, n) == all_slits(more, n),
    decreases n,
{
    if n > 0 {
        lemma_same_walls(fewer, more, n - 1);
        assert(fewer[n - 1] == more.subrange(0, fewer.len() as int)[n - 1]);
    }
}

proof fn lemma_slits_grow(fronts: Seq<WallFront>, n: int, m: int)
    requires
        n <= m,
    ensures
        all_slits(fronts, n).is_prefix_of(all_slits(fronts, m)),
    decreases m - n,
{
    if n < m {
        lemma_slits_grow(fronts, n, m - 1);
    }
}

/// The window lies on one of the first `n` walls, a building wall with room for
/// it, within its face's grid.
pub open spec fn slit_fits(fronts: Seq<WallFront>, n: int, s: SlitCell) -> bool {
    &&& s.wall < n
    &&& s.face < 4
    &&& fronts[s.wall as int].eligible()
    &&& fronts[s.wall as int].wide(s.face as int)
    &&& fronts[s.wall as int].has_rows()
    &&& s.row < s.rows <= fronts[s.wall as int].rows
    &&& s.col < s.cols <= fronts[s.wall as int].max_cols(s.face as int)
}

/// Windows stand on tall building walls alone, on faces wide enough, in no more
/// rows and columns than fit.
pub proof fn law_windows_fit_their_walls(fronts: Seq<WallFront>, n: int, i: int)
    requires
        0 <= n <= fronts.len() <= usize::MAX,
        forall|i: int| 0 <= i < fronts.len() ==> (#[trigger] fronts[i]).wf(),
        0 <= i < all_slits(fronts, n).len(),
    ensures
        slit_fits(fronts, n, all_slits(fronts, n)[i]),
    decreases n,
{
    if n > 0 {
        let before = all_slits(fronts, n - 1);
        if i < before.len() {
            law_windows_fit_their_walls(fronts, n - 1, i);
        } else {
            lemma_wall_slits_fit(fronts, n - 1, 4, i - before.len());
        }
    }
}

proof fn lemma_wall_slits_fit(fronts: Seq<WallFront>, wall: int, f: int, i: int)
    requires
        0 <= wall < fronts.len() <= usize::MAX,
        fronts[wall].wf(),
        f <= 4,
        0 <= i < wall_slits(fronts[wall], wall, f).len(),
    ensures
        slit_fits(fronts, wall + 1, wall_slits(fronts[wall], wall, f)[i]),
    decreases f,
{
    if f > 0 {
        let front = fronts[wall];
        let face = f - 1;
        let before = wall_slits(front, wall, face);
        if i < before.len() {
            lemma_wall_slits_fit(fronts, wall, face, i);
        } else {
            let seed = face_seed(wall, face);
            let h = scrambled(seed);
            let cols = (1 + h % front.max_cols(face)) as u32;
            let rows = (1 + (h >> 8u32) % front.rows) as u32;
            let j = i - before.len();
            lemma_grid_cells(seed, wall, face, rows, cols, rows * cols, j);
            assert(wall_slits(front, wall, f)[i] == grid_slits(
                seed,
                wall,
                face,
                rows,
                cols,
                rows * cols,
            )[j]);
        }
    }
}

proof fn lemma_grid_cells(seed: u32, wall: int, face: int, rows: u32, cols: u32, n: int, i: int)
    requires
        0 < cols,
        n <= rows * cols,
        0 <= i < grid_slits(seed, wall, face, rows, cols, n).len(),
    ensures
        ({
            let s = grid_slits(seed, wall, face, rows, cols, n)[i];
            &&& s.wall == wall as usize
            &&& s.face == face as usize
            &&& s.rows == rows
            &&& s.cols == cols
            &&& s.row < rows
            &&& s.col < cols
        }),
    decreases n,
{
    if n > 0 {
        let before = grid_slits(seed, wall, face, rows, cols, n - 1);
        if i < before.len() {
            lemma_grid_cells(seed, wall, face, rows, cols, n - 1, i);
        } else {
            let m = n - 1;
            let c = cols as int;
            assert(0 <= m / c < rows && 0 <= m % c < c) by (nonlinear_arith)
                requires
                    0 <= m < rows * c,
                    0 < c,
            ;
        }
    }
}

// ---- textures -----------------------------------------------------------------

/// Sixteen bits of noise for a texel.
pub open spec fn noise_bits(x: u32, y: u32, salt: u32) -> u32 {
    let n = wrapped_sum(
        wrapped_sum(wrapped_mul(x, 374761393), wrapped_mul(y, 668265263)),
        wrapped_mul(salt, 2246822519),
    );
    let m = wrapped_mul(n ^ (n >> 13u32), 1274126177);
    (m ^ (m >> 16u32)) & 0xffff
}

/// Sixteen bits of noise for a texel: the numerator of a fraction of 65535.
pub fn hash_noise(x: u32, y: u32, salt: u32) -> (r: u32)
    ensures
        r == noise_bits(x, y, salt),
        r <= 0xffff,
{
    let n: u32 = plus(plus(times(x, 374761393), times(y, 668265263)), times(salt, 2246822519));
    let m: u32 = times(n ^ (n >> 13u32), 1274126177);
    let mixed: u32 = m ^ (m >> 16u32);
    assert(mixed & 0xffff <= 0xffff) by (bit_vector);
    mixed & 0xffff
}

/// Least resolution of the ground texture.
pub const BASE_GROUND_TEX_RES: u32 = 1024;

/// Least resolution of the ground occlusion grid.
pub const BASE_OCCLUSION_RES: u32 = 256;

/// Most texels along a baked texture's side.
pub const MAX_BAKE_TEX_RES: u32 = 2048;

/// The least power of two that is at least `n`, searched from `from` on and not
/// beyond the most texels allowed.
pub open spec fn bake_res(n: int, from: int) -> int
    decreases
            if from < MAX_BAKE_TEX_RES {
                MAX_BAKE_TEX_RES - from
            } else {
                0
            },
{
    if from <= 0 || from >= MAX_BAKE_TEX_RES {
        MAX_BAKE_TEX_RES as int
    } else if n <= from {
        from
    } else {
        bake_res(n, 2 * from)
    }
}

fn baked_resolution(needed: u32, base: u32) -> (r: u32)
    requires
        base == BASE_GROUND_TEX_RES || base == BASE_OCCLUSION_RES,
    ensures
        r == bake_res(needed as int, base as int),
{
    let mut r: u32 = base;
    while r < MAX_BAKE_TEX_RES && r < needed
        invariant
            r == 256 || r == 512 || r == 1024 || r == 2048,
            bake_res(needed as int, base as int) == bake_res(needed as int, r as int),
        decreases MAX_BAKE_TEX_RES - r,
    {
        r = 2 * r;
    }
    r
}

/// Resolution of the ground texture, given how many texels a side needs.
pub fn ground_tex_res(needed: u32) -> (r: u32)
    ensures
        r == bake_res(needed as int, BASE_GROUND_TEX_RES as int),
{
    baked_resolution(needed, BASE_GROUND_TEX_RES)
}

/// Resolution of the occlusion grid, given how many cells a side needs.
pub fn occlusion_res(needed: u32) -> (r: u32)
    ensures
        r == bake_res(needed as int, BASE_OCCLUSION_RES as int),
{
    baked_resolution(needed, BASE_OCCLUSION_RES)
}

/// A baked resolution is what was needed or the most there is, is never below
/// the base, and is less than twice what was needed unless it is the base.
pub proof fn law_bake_resolution_is_tight(needed: int, base: int)
    requires
        base == BASE_GROUND_TEX_RES || base == BASE_OCCLUSION_RES,
    ensures
        ({
            let r = bake_res(needed, base);
            &&& base <= r <= MAX_BAKE_TEX_RES
            &&& needed <= r || r == MAX_BAKE_TEX_RES
            &&& r == base || r < 2 * needed
        }),
{
    reveal_with_fuel(bake_res, 5);
}

/// Place of a cell in a row-major grid.
pub open spec fn grid_place(x: int, z: int, res: int) -> int {
    z * res + x
}

/// The four cells around a sample point whose lower cell is `x0`, `z0`; at the
/// border a cell stands in for its missing neighbour.
pub fn occlusion_cells(x0: u32, z0: u32, res: u32) -> (r: (u64, u64, u64, u64))
    requires
        x0 < res,
        z0 < res,
    ensures
        ({
            let x1 = if x0 + 1 < res {
                x0 + 1
            } else {
                res - 1
            };
            let z1 = if z0 + 1 < res {
                z0 + 1
            } else {
                res - 1
            };
            &&& r.0 == grid_place(x0 as int, z0 as int, res as int)
            &&& r.1 == grid_place(x1, z0 as int, res as int)
            &&& r.2 == grid_place(x0 as int, z1, res as int)
            &&& r.3 == grid_place(x1, z1, res as int)
        }),
        r.0 < res * res,
        r.1 < res * res,
        r.2 < res * res,
        r.3 < res * res,
{
    let x1: u32 = if x0 < res - 1 { x0 + 1 } else { res - 1 };
    let z1: u32 = if z0 < res - 1 { z0 + 1 } else { res - 1 };
    assert(z0 * res + res <= res * res && z1 * res + res <= res * res) by (nonlinear_arith)
        requires
            z0 < res,
            z1 < res,
    ;
    assert(res * res <= 0xffff_ffff * 0xffff_ffff) by (nonlinear_arith)
        requires
            res <= 0xffff_ffff,
    ;
    assert(z0 * res >= 0 && z1 * res >= 0) by (nonlinear_arith);
    (
        z0 as u64 * res as u64 + x0 as u64,
        z0 as u64 * res as u64 + x1 as u64,
        z1 as u64 * res as u64 + x0 as u64,
        z1 as u64 * res as u64 + x1 as u64,
    )
}

// ---- signs ----------------------------------------------------------------------

/// Red, green and blue.
#[derive(Clone, Copy, Debug, PartialEq, Eq, Structural)]
pub struct Rgb {
    pub r: u8,
    pub g: u8,
    pub b: u8,
}

/// The background of a sign.
pub open spec fn ad_background(slot: u8) -> Rgb {
    let i = slot % 4;
    if i == 0 {
        Rgb { r: 255, g: 40, b: 80 }
    } else if i == 1 {
        Rgb { r: 40, g: 200, b: 255 }
    } else if i == 2 {
        Rgb { r: 255, g: 210, b: 30 }
    } else {
        Rgb { r: 120, g: 60, b: 255 }
    }
}

/// The border of a sign.
pub open spec fn ad_border(slot: u8) -> Rgb {
    let i = slot % 4;
    if i == 0 {
        Rgb { r: 20, g: 20, b: 20 }
    } else if i == 1 {
        Rgb { r: 10, g: 10, b: 60 }
    } else if i == 2 {
        Rgb { r: 40, g: 20, b: 0 }
    } else {
        Rgb { r: 255, g: 255, b: 255 }
    }
}

/// The pattern's colour against a background.
pub open spec fn ad_pattern(bg: Rgb) -> Rgb {
    Rgb {
        r: (255 - bg.r as int / 2) as u8,
        g: (255 - bg.g as int / 2) as u8,
        b: (255 - bg.b as int / 2) as u8,
    }
}

/// A sign's pixel: a border six pixels wide, and across the middle half diagonal
/// stripes on even slots and a checker on odd ones.
pub open spec fn ad_pixel(slot: u8, width: int, height: int, x: int, y: int) -> Rgb {
    let bg = ad_background(slot);
    if x < 6 || y < 6 || x >= width - 6 || y >= height - 6 {
        ad_border(slot)
    } else if height / 4 < y < (height * 3) / 4 {
        let marked = if slot % 2 == 0 {
            ((x + y) / 12) % 2 == 0
        } else {
            (x / 16 + y / 16) % 2 == 0
        };
        if marked {
            ad_pattern(bg)
        } else {
            bg
        }
    } else {
        bg
    }
}

/// Byte `i` of a sign's pixels, in rows of red, green, blue and full opacity.
pub open spec fn ad_byte(slot: u8, width: int, height: int, i: int) -> u8 {
    let k = i / 4;
    let p = ad_pixel(slot, width, height, k % width, k / width);
    if i % 4 == 0 {
        p.r
    } else if i % 4 == 1 {
        p.g
    } else if i % 4 == 2 {
        p.b
    } else {
        255
    }
}

fn make_ad_pixel(slot: u8, width: u32, height: u32, x: u32, y: u32) -> (r: Rgb)
    requires
        x < width,
        y < height,
        width + height <= u32::MAX,
        height * 3 <= u32::MAX,
    ensures
        r == ad_pixel(slot, width as int, height as int, x as int, y as int),
{
    let i: u8 = slot % 4;
    let bg = if i == 0 {
        Rgb { r: 255, g: 40, b: 80 }
    } else if i == 1 {
        Rgb { r: 40, g: 200, b: 255 }
    } else if i == 2 {
        Rgb { r: 255, g: 210, b: 30 }
    } else {
        Rgb { r: 120, g: 60, b: 255 }
    };
    if x < 6 || y < 6 || x >= width - 6 || y >= height - 6 {
        if i == 0 {
            Rgb { r: 20, g: 20, b: 20 }
        } else if i == 1 {
            Rgb { r: 10, g: 10, b: 60 }
        } else if i == 2 {
            Rgb { r: 40, g: 20, b: 0 }
        } else {
            Rgb { r: 255, g: 255, b: 255 }
        }
    } else if y > height / 4 && y < (height * 3) / 4 {
        let marked: bool = if slot % 2 == 0 {
            ((x + y) / 12) % 2 == 0
        } else {
            (x / 16 + y / 16) % 2 == 0
        };
        if marked {
            Rgb { r: 255 - bg.r / 2, g: 255 - bg.g / 2, b: 255 - bg.b / 2 }
        } else {
            bg
        }
    } else {
        bg
    }
}

/// The pixels of a sign.
pub fn gen_ad(slot: u8, width: u32, height: u32) -> (px: Vec<u8>)
    requires
        width * height * 4 <= u32::MAX,
    ensures
        px@ == Seq::new(
            (width * height * 4) as nat,
            |i: int| ad_byte(slot, width as int, height as int, i),
        ),
{
    let mut px: Vec<u8> = Vec::new();
    assert(width * height <= u32::MAX) by (nonlinear_arith)
        requires
            width * height * 4 <= u32::MAX,
    ;
    let total: u32 = width * height;
    for k in 0..total
        invariant
            total == width * height,
            width * height * 4 <= u32::MAX,
            px@ == Seq::new(
                (4 * k) as nat,
                |i: int| ad_byte(slot, width as int, height as int, i),
            ),
    {
        assert(width >= 1 && height >= 1) by (nonlinear_arith)
            requires
                k < width * height,
                k >= 0,
        ;
        let x: u32 = k % width;
        let y: u32 = k / width;
        assert(y < height) by (nonlinear_arith)
            requires
                k < width * height,
                width >= 1,
                y == k as int / width as int,
        ;
        assert(width + height <= u32::MAX && height * 3 <= u32::MAX) by (nonlinear_arith)
            requires
                width >= 1,
                height >= 1,
                width * height * 4 <= u32::MAX,
        ;
        let p = make_ad_pixel(slot, width, height, x, y);
        px.push(p.r);
        px.push(p.g);
        px.push(p.b);
        px.push(255);
        assert(px@ =~= Seq::new(
            (4 * (k + 1)) as nat,
            |i: int| ad_byte(slot, width as int, height as int, i),
        ));
    }
    px
}

/// Quarter turns, counted to the left, of a sign on a wall: each faces away from
/// its wall.
pub fn billboard_facing_rotation(wall: u8) -> (r: i8)
    ensures
        r == (if wall == 1 {
            2i8
        } else if wall == 2 {
            1i8
        } else if wall == 3 {
            (-1) as i8
        } else {
            0i8
        }),
{
    match wall {
        1 => 2,
        2 => 1,
        3 => -1,
        _ => 0,
    }
}

// ---- atmosphere -----------------------------------------------------------------

/// Sky, fill light and sun of an environment.
#[derive(Clone, Copy, Debug, PartialEq, Eq, Structural)]
pub struct EnvLighting {
    /// Clear and fog colour.
    pub sky: Rgb,
    pub ambient: Rgb,
    pub ambient_brightness: u32,
    pub sun_color: Rgb,
    pub sun_illuminance: u32,
    /// A vector towards the sun, not normalised.
    pub sun_x: i32,
    pub sun_y: i32,
    pub sun_z: i32,
}

fn rgb(r: u8, g: u8, b: u8) -> (c: Rgb)
    ensures
        c == (Rgb { r, g, b }),
{
    Rgb { r, g, b }
}

/// The atmosphere of each environment.
pub open spec fn lighting_of(env: EnvKind) -> EnvLighting {
    match env {
        EnvKind::Urban => EnvLighting {
            sky: Rgb { r: 158, g: 201, b: 239 },
            ambient: Rgb { r: 150, g: 158, b: 168 },
            ambient_brightness: 950,
            sun_color: Rgb { r: 255, g: 243, b: 218 },
            sun_illuminance: 11_000,
            sun_x: 16,
            sun_y: 28,
            sun_z: 12,
        },
        EnvKind::MountainTown => EnvLighting {
            sky: Rgb { r: 143, g: 190, b: 222 },
            ambient: Rgb { r: 140, g: 155, b: 170 },
            ambient_brightness: 900,
            sun_color: Rgb { r: 255, g: 248, b: 235 },
            sun_illuminance: 12_500,
            sun_x: 10,
            sun_y: 30,
            sun_z: 14,
        },
        EnvKind::DesertTown => EnvLighting {
            sky: Rgb { r: 232, g: 206, b: 158 },
            ambient: Rgb { r: 196, g: 172, b: 132 },
            ambient_brightness: 1_050,
            sun_color: Rgb { r: 255, g: 230, b: 185 },
            sun_illuminance: 13_000,
            sun_x: 20,
            sun_y: 24,
            sun_z: 8,
        },
        EnvKind::SeaTown => EnvLighting {
            sky: Rgb { r: 151, g: 197, b: 222 },
            ambient: Rgb { r: 150, g: 166, b: 178 },
            ambient_brightness: 1_000,
            sun_color: Rgb { r: 255, g: 242, b: 214 },
            sun_illuminance: 11_500,
            sun_x: (-14) as i32,
            sun_y: 26,
            sun_z: 16,
        },
        EnvKind::RomeEur => EnvLighting {
            sky: Rgb { r: 168, g: 196, b: 230 },
            ambient: Rgb { r: 168, g: 158, b: 142 },
            ambient_brightness: 1_000,
            sun_color: Rgb { r: 255, g: 236, b: 200 },
            sun_illuminance: 12_000,
            sun_x: (-18) as i32,
            sun_y: 20,
            sun_z: 14,
        },
    }
}

pub fn env_lighting(env: EnvKind) -> (r: EnvLighting)
    ensures
        r == lighting_of(env),
{
    match env {
        EnvKind::Urban => EnvLighting {
            sky: rgb(158, 201, 239),
            ambient: rgb(150, 158, 168),
            ambient_brightness: 950,
            sun_color: rgb(255, 243, 218),
            sun_illuminance: 11_000,
            sun_x: 16,
            sun_y: 28,
            sun_z: 12,
        },
        EnvKind::MountainTown => EnvLighting {
            sky: rgb(143, 190, 222),
            ambient: rgb(140, 155, 170),
            ambient_brightness: 900,
            sun_color: rgb(255, 248, 235),
            sun_illuminance: 12_500,
            sun_x: 10,
            sun_y: 30,
            sun_z: 14,
        },
        EnvKind::DesertTown => EnvLighting {
            sky: rgb(232, 206, 158),
            ambient: rgb(196, 172, 132),
            ambient_brightness: 1_050,
            sun_color: rgb(255, 230, 185),
            sun_illuminance: 13_000,
            sun_x: 20,
            sun_y: 24,
            sun_z: 8,
        },
        EnvKind::SeaTown => EnvLighting {
            sky: rgb(151, 197, 222),
            ambient: rgb(150, 166, 178),
            ambient_brightness: 1_000,
            sun_color: rgb(255, 242, 214),
            sun_illuminance: 11_500,
            sun_x: -14,
            sun_y: 26,
            sun_z: 16,
        },
        EnvKind::RomeEur => EnvLighting {
            sky: rgb(168, 196, 230),
            ambient: rgb(168, 158, 142),
            ambient_brightness: 1_000,
            sun_color: rgb(255, 236, 200),
            sun_illuminance: 12_000,
            sun_x: -18,
            sun_y: 20,
            sun_z: 14,
        },
    }
}

/// Every environment has its own sky, a fill light, and a sun above the horizon.
pub proof fn law_atmospheres_are_distinct(a: EnvKind, b: EnvKind)
    ensures
        a != b ==> lighting_of(a).sky != lighting_of(b).sky,
        lighting_of(a).ambient_brightness > 0,
        lighting_of(a).sun_illuminance > 0,
        lighting_of(a).sun_y > 0,
{
}

/// Base colours of the four families.
#[derive(Clone, Copy, Debug, PartialEq, Eq, Structural)]
pub struct FamilyColors {
    pub perimeter: Centi3,
    pub cover: Centi3,
    pub building: Centi3,
    pub roof: Centi3,
}

fn centi(x: u16, y: u16, z: u16) -> (c: Centi3)
    ensures
        c == (Centi3 { x, y, z }),
{
    Centi3 { x, y, z }
}

/// The base colours of each environment, in hundredths.
pub open spec fn colors_of(env: EnvKind) -> FamilyColors {
    match env {
        EnvKind::Urban => FamilyColors {
            perimeter: Centi3 { x: 62, y: 65, z: 71 },
            cover: Centi3 { x: 80, y: 66, z: 46 },
            building: Centi3 { x: 88, y: 82, z: 70 },
            roof: Centi3 { x: 38, y: 42, z: 50 },
        },
        EnvKind::MountainTown => FamilyColors {
            perimeter: Centi3 { x: 50, y: 50, z: 52 },
            cover: Centi3 { x: 40, y: 28, z: 18 },
            building: Centi3 { x: 38, y: 26, z: 16 },
            roof: Centi3 { x: 52, y: 50, z: 46 },
        },
        EnvKind::DesertTown => FamilyColors {
            perimeter: Centi3 { x: 70, y: 60, z: 46 },
            cover: Centi3 { x: 68, y: 50, z: 32 },
            building: Centi3 { x: 86, y: 72, z: 50 },
            roof: Centi3 { x: 72, y: 58, z: 40 },
        },
        EnvKind::SeaTown => FamilyColors {
            perimeter: Centi3 { x: 52, y: 56, z: 60 },
            cover: Centi3 { x: 60, y: 52, z: 40 },
            building: Centi3 { x: 56, y: 60, z: 66 },
            roof: Centi3 { x: 58, y: 54, z: 46 },
        },
        EnvKind::RomeEur => FamilyColors {
            perimeter: Centi3 { x: 72, y: 68, z: 60 },
            cover: Centi3 { x: 78, y: 62, z: 42 },
            building: Centi3 { x: 92, y: 86, z: 74 },
            roof: Centi3 { x: 48, y: 42, z: 36 },
        },
    }
}

pub fn family_base_colors(env: EnvKind) -> (r: FamilyColors)
    ensures
        r == colors_of(env),
{
    match env {
        EnvKind::Urban => FamilyColors {
            perimeter: centi(62, 65, 71),
            cover: centi(80, 66, 46),
            building: centi(88, 82, 70),
            roof: centi(38, 42, 50),
        },
        EnvKind::MountainTown => FamilyColors {
            perimeter: centi(50, 50, 52),
            cover: centi(40, 28, 18),
            building: centi(38, 26, 16),
            roof: centi(52, 50, 46),
        },
        EnvKind::DesertTown => FamilyColors {
            perimeter: centi(70, 60, 46),
            cover: centi(68, 50, 32),
            building: centi(86, 72, 50),
            roof: centi(72, 58, 40),
        },
        EnvKind::SeaTown => FamilyColors {
            perimeter: centi(52, 56, 60),
            cover: centi(60, 52, 40),
            building: centi(56, 60, 66),
            roof: centi(58, 54, 46),
        },
        EnvKind::RomeEur => FamilyColors {
            perimeter: centi(72, 68, 60),
            cover: centi(78, 62, 42),
            building: centi(92, 86, 74),
            roof: centi(48, 42, 36),
        },
    }
}

/// No two environments share a building colour or a whole palette.
pub proof fn law_palettes_are_distinct(a: EnvKind, b: EnvKind)
    requires
        a != b,
    ensures
        colors_of(a) != colors_of(b),
        colors_of(a).building != colors_of(b).building,
{
}

/// The tint of an environment's wall textures, in hundredths.
pub fn env_texture_tint(env: EnvKind) -> (r: Centi3)
    ensures
        r == (match env {
            EnvKind::Urban => Centi3 { x: 100, y: 100, z: 100 },
            EnvKind::MountainTown => Centi3 { x: 88, y: 78, z: 66 },
            EnvKind::DesertTown => Centi3 { x: 108, y: 96, z: 72 },
            EnvKind::SeaTown => Centi3 { x: 86, y: 92, z: 98 },
            EnvKind::RomeEur => Centi3 { x: 106, y: 100, z: 90 },
        }),
{
    match env {
        EnvKind::Urban => centi(100, 100, 100),
        EnvKind::MountainTown => centi(88, 78, 66),
        EnvKind::DesertTown => centi(108, 96, 72),
        EnvKind::SeaTown => centi(86, 92, 98),
        EnvKind::RomeEur => centi(106, 100, 90),
    }
}

/// How a wall texture is generated.
#[derive(Clone, Copy, Debug, PartialEq, Eq, Structural)]
pub enum WallTexture {
    Concrete { dark: bool },
    Planks { bleached: bool },
    Adobe,
}

/// The texture of buildings.
pub fn gen_building_tex(env: EnvKind) -> (r: WallTexture)
    ensures
        r == (match env {
            EnvKind::MountainTown => WallTexture::Planks { bleached: false },
            EnvKind::DesertTown => WallTexture::Adobe,
            EnvKind::SeaTown => WallTexture::Planks { bleached: true },
            _ => WallTexture::Concrete { dark: false },
        }),
{
    match env {
        EnvKind::MountainTown => WallTexture::Planks { bleached: false },
        EnvKind::DesertTown => WallTexture::Adobe,
        EnvKind::SeaTown => WallTexture::Planks { bleached: true },
        _ => WallTexture::Concrete { dark: false },
    }
}

/// The texture of perimeter walls and its tint: the mountain town's is grey
/// stone whatever its tint.
pub fn gen_perimeter_tex(env: EnvKind) -> (r: (WallTexture, Centi3))
    ensures
        r.0 == (if env is DesertTown {
            WallTexture::Adobe
        } else {
            WallTexture::Concrete { dark: true }
        }),
        env is MountainTown ==> r.1 == (Centi3 { x: 92, y: 92, z: 96 }),
        env is Urban ==> r.1 == (Centi3 { x: 100, y: 100, z: 100 }),
        env is DesertTown ==> r.1 == (Centi3 { x: 108, y: 96, z: 72 }),
        env is SeaTown ==> r.1 == (Centi3 { x: 86, y: 92, z: 98 }),
        env is RomeEur ==> r.1 == (Centi3 { x: 106, y: 100, z: 90 }),
{
    match env {
        EnvKind::MountainTown => (WallTexture::Concrete { dark: true }, centi(92, 92, 96)),
        EnvKind::DesertTown => (WallTexture::Adobe, env_texture_tint(env)),
        _ => (WallTexture::Concrete { dark: true }, env_texture_tint(env)),
    }
}

// ---- rebuilding -----------------------------------------------------------------

/// Which map was last built.
#[derive(Debug, PartialEq, Eq)]
pub struct BuiltMapKey {
    pub seed: String,
    pub env: Option<EnvKind>,
}

impl Default for BuiltMapKey {
    fn default() -> (r: Self)
        ensures
            r.seed@ == Seq::<char>::empty(),
            r.env is None,
    {
        let r = BuiltMapKey { seed: String::new(), env: None };
        assert(r.seed@ =~= Seq::empty());
        r
    }
}

impl BuiltMapKey {
    /// The map must be built: it changed, it is not the one built last, its root
    /// is missing, or something of the backdrop still lingers.
    pub fn needs_rebuild(
        &self,
        seed: &String,
        env: EnvKind,
        has_root: bool,
        has_placeholders: bool,
        changed: bool,
    ) -> (r: bool)
        ensures
            r == !(self.env == Some(env) && self.seed@ == seed@ && has_root && !has_placeholders
                && !changed),
    {
        let same_env: bool = match self.env {
            Some(e) => e == env,
            None => false,
        };
        !(same_env && self.seed == *seed && has_root && !has_placeholders && !changed)
    }

    /// The map was built.
    pub fn mark_built(&mut self, seed: &String, env: EnvKind)
        ensures
            final(self).seed@ == seed@,
            final(self).env == Some(env),
    {
        self.seed = seed.clone();
        self.env = Some(env);
    }
}

// ---- what the map promises ------------------------------------------------------

/// How far a point lies along a direction.
pub open spec fn along(n: P3<int>, p: P3<int>) -> int {
    n.x * p.x + n.y * p.y + n.z * p.z
}

/// A face lies on the side of the box that its normal points to, and no two faces
/// look the same way.
pub proof fn law_faces_lie_where_they_look(b: Aabb<int>, k: int, j: int, i: int, q: P3<int>)
    requires
        b.x0 <= b.x1,
        b.y0 <= b.y1,
        b.z0 <= b.z1,
        0 <= k < 6,
        0 <= j < 6,
        0 <= i < 4,
        is_corner(b, q),
    ensures
        ({
            let u = Units { zero: 0int, one: 1int, minus_one: -1int };
            &&& is_corner(b, box_face(b, k).items()[i])
            &&& along(box_normal(k, u), box_face(b, k).items()[i]) >= along(box_normal(k, u), q)
            &&& k != j ==> box_normal(k, u) != box_normal(j, u)
        }),
{
    lemma_along_axis(k, box_face(b, k).items()[i]);
    lemma_along_axis(k, q);
}

proof fn lemma_along_axis(k: int, p: P3<int>)
    requires
        0 <= k < 6,
    ensures
        along(box_normal(k, Units { zero: 0int, one: 1int, minus_one: -1int }), p) == (if k == 0 {
            p.y
        } else if k == 1 {
            -p.y
        } else if k == 2 {
            p.x
        } else if k == 3 {
            -p.x
        } else if k == 4 {
            p.z
        } else {
            -p.z
        }),
{
    assert(0 * p.x == 0 && 0 * p.y == 0 && 0 * p.z == 0) by (nonlinear_arith);
    assert(1 * p.x == p.x && 1 * p.y == p.y && 1 * p.z == p.z) by (nonlinear_arith);
    assert(-1 * p.x == -p.x && -1 * p.y == -p.y && -1 * p.z == -p.z) by (nonlinear_arith);
}

/// How far two points are apart along the axes.
pub open spec fn apart(p: P3<int>, q: P3<int>) -> int {
    let dx = if p.x < q.x {
        q.x - p.x
    } else {
        p.x - q.x
    };
    let dy = if p.y < q.y {
        q.y - p.y
    } else {
        p.y - q.y
    };
    let dz = if p.z < q.z {
        q.z - p.z
    } else {
        p.z - q.z
    };
    dx + dy + dz
}

/// A texture is laid on a box without stretching: where the extents are the box's
/// own lengths, texture coordinates grow by as much as one goes from corner to
/// corner, and on the sides upwards.
pub proof fn law_textures_are_not_stretched(b: TexturedBox<int>, k: int)
    requires
        b.aabb.x0 <= b.aabb.x1,
        b.aabb.y0 <= b.aabb.y1,
        b.aabb.z0 <= b.aabb.z1,
        b.u_x == b.aabb.x1 - b.aabb.x0,
        b.u_y == b.aabb.y1 - b.aabb.y0,
        b.u_z == b.aabb.z1 - b.aabb.z0,
        0 <= k < 6,
    ensures
        ({
            let f = box_face(b.aabb, k);
            let t = box_uvs(b, k, 0);
            &&& t.a.u == 0 && t.a.v == 0
            &&& t.b.u - t.a.u == apart(f.a, f.b) && t.b.v == t.a.v
            &&& t.c.v - t.b.v == apart(f.b, f.c) && t.c.u == t.b.u
            &&& t.c.u - t.d.u == apart(f.c, f.d) && t.d.v == t.c.v
            &&& t.d.v - t.a.v == apart(f.d, f.a) && t.d.u == t.a.u
            &&& k >= 2 ==> f.c.y - f.b.y == t.c.v && f.a.y == f.b.y && f.c.y == f.d.y
        }),
{
}

/// A face is drawn as two triangles that start at its first corner and share the
/// third, in the corners' order.
pub proof fn law_faces_are_two_triangles(n: int, k: int)
    requires
        0 <= k < n,
        4 * n <= u32::MAX,
    ensures
        indices_of(n).len() == 6 * n,
        indices_of(n)[6 * k] == 4 * k,
        indices_of(n)[6 * k + 1] == 4 * k + 1,
        indices_of(n)[6 * k + 2] == 4 * k + 2,
        indices_of(n)[6 * k + 3] == 4 * k,
        indices_of(n)[6 * k + 4] == 4 * k + 2,
        indices_of(n)[6 * k + 5] == 4 * k + 3,
    decreases n,
{
    lemma_index_count(n);
    lemma_index_count(n - 1);
    let before = indices_of(n - 1);
    if k < n - 1 {
        law_faces_are_two_triangles(n - 1, k);
        assert forall|m: int| 0 <= m < 6 implies #[trigger] indices_of(n)[6 * k + m] == before[6 * k
            + m] by {}
        assert(indices_of(n)[6 * k + 0] == before[6 * k + 0]);
    } else {
        assert forall|m: int| 0 <= m < 6 implies #[trigger] indices_of(n)[6 * k + m]
            == face_indices(k)[m] by {}
        assert(indices_of(n)[6 * k + 0] == face_indices(k)[0]);
    }
}

/// Adding a face keeps what the mesh had, in its place, and adds the face's four
/// corners with their normal and texture coordinates behind it.
pub proof fn law_faces_are_added_behind<T>(
    g: GeomView<T>,
    corners: Quad<P3<T>>,
    normal: P3<T>,
    uvs: Quad<P2<T>>,
    i: int,
)
    requires
        g.normals.len() == g.positions.len(),
        g.uvs.len() == g.positions.len(),
        g.positions.len() + 4 <= u32::MAX,
    ensures
        ({
            let r = with_face(g, corners, normal, uvs);
            let n = g.positions.len() as int;
            let m = g.indices.len() as int;
            &&& r.positions.len() == n + 4 && r.normals.len() == n + 4 && r.uvs.len() == n + 4
            &&& 0 <= i < n ==> r.positions[i] == g.positions[i] && r.normals[i] == g.normals[i]
                && r.uvs[i] == g.uvs[i]
            &&& r.positions[n] == corners.a && r.positions[n + 1] == corners.b && r.positions[n + 2]
                == corners.c && r.positions[n + 3] == corners.d
            &&& r.uvs[n] == uvs.a && r.uvs[n + 1] == uvs.b && r.uvs[n + 2] == uvs.c && r.uvs[n + 3]
                == uvs.d
            &&& n <= i < n + 4 ==> r.normals[i] == normal
            &&& r.indices.len() == m + 6
            &&& 0 <= i < m ==> r.indices[i] == g.indices[i]
            &&& m <= i < m + 6 ==> n <= r.indices[i] < n + 4
            &&& r.indices[m] == n && r.indices[m + 1] == n + 1 && r.indices[m + 2] == n + 2
            &&& r.indices[m + 3] == n && r.indices[m + 4] == n + 2 && r.indices[m + 5] == n + 3
            &&& r.colors == g.colors
        }),
{
}

proof fn lemma_box_vertex<T>(b: TexturedBox<T>, u: Units<T>, n: int, k: int, j: int)
    requires
        0 <= k < n <= 6,
        0 <= j < 4,
    ensures
        box_positions(b.aabb, n).len() == 4 * n,
        box_normals(u, n).len() == 4 * n,
        box_texture(b, u.zero, n).len() == 4 * n,
        box_positions(b.aabb, n)[4 * k + j] == box_face(b.aabb, k).items()[j],
        box_normals(u, n)[4 * k + j] == box_normal(k, u),
        box_texture(b, u.zero, n)[4 * k + j] == box_uvs(b, k, u.zero).items()[j],
    decreases n,
{
    lemma_box_sizes(b, u, n);
    lemma_box_sizes(b, u, n - 1);
    if k < n - 1 {
        lemma_box_vertex(b, u, n - 1, k, j);
        assert(box_positions(b.aabb, n)[4 * k + j] == box_positions(b.aabb, n - 1)[4 * k + j]);
        assert(box_normals(u, n)[4 * k + j] == box_normals(u, n - 1)[4 * k + j]);
        assert(box_texture(b, u.zero, n)[4 * k + j] == box_texture(b, u.zero, n - 1)[4 * k + j]);
    } else {
        assert(box_positions(b.aabb, n)[4 * k + j] == box_face(b.aabb, k).items()[j]);
        assert(box_normals(u, n)[4 * k + j] == four(box_normal(k, u))[j]);
        assert(box_texture(b, u.zero, n)[4 * k + j] == box_uvs(b, k, u.zero).items()[j]);
    }
}

proof fn lemma_box_sizes<T>(b: TexturedBox<T>, u: Units<T>, n: int)
    requires
        0 <= n,
    ensures
        box_positions(b.aabb, n).len() == 4 * n,
        box_normals(u, n).len() == 4 * n,
        box_texture(b, u.zero, n).len() == 4 * n,
    decreases n,
{
    if n > 0 {
        lemma_box_sizes(b, u, n - 1);
    }
}

proof fn lemma_merged_sizes<T>(boxes: Seq<TexturedBox<T>>, u: Units<T>, n: int)
    requires
        0 <= n <= boxes.len(),
    ensures
        merged_positions(boxes, n).len() == 24 * n,
        merged_normals(u, n).len() == 24 * n,
        merged_texture(boxes, u.zero, n).len() == 24 * n,
    decreases n,
{
    if n > 0 {
        lemma_merged_sizes(boxes, u, n - 1);
        lemma_box_sizes(boxes[n - 1], u, 6);
    }
}

/// Corner `j` of face `k` of box `m` stands where it belongs in a merged mesh, with
/// its face's normal and its own texture coordinates.
pub proof fn law_merged_boxes_stand_in_order<T>(
    boxes: Seq<TexturedBox<T>>,
    u: Units<T>,
    m: int,
    k: int,
    j: int,
)
    requires
        0 <= m < boxes.len(),
        0 <= k < 6,
        0 <= j < 4,
    ensures
        ({
            let mesh = merged_boxes(boxes, u);
            let i = 24 * m + 4 * k + j;
            &&& mesh.positions.len() == 24 * boxes.len()
            &&& mesh.positions[i] == box_face(boxes[m].aabb, k).items()[j]
            &&& mesh.normals[i] == box_normal(k, u)
            &&& mesh.uvs[i] == box_uvs(boxes[m], k, u.zero).items()[j]
            &&& mesh.indices.len() == 36 * boxes.len()
            &&& mesh.colors.len() == 0
        }),
{
    lemma_merged_sizes(boxes, u, boxes.len() as int);
    lemma_index_count(6 * boxes.len() as int);
    lemma_merged_vertex(boxes, u, boxes.len() as int, m, k, j);
}

proof fn lemma_merged_vertex<T>(
    boxes: Seq<TexturedBox<T>>,
    u: Units<T>,
    n: int,
    m: int,
    k: int,
    j: int,
)
    requires
        0 <= m < n <= boxes.len(),
        0 <= k < 6,
        0 <= j < 4,
    ensures
        ({
            let i = 24 * m + 4 * k + j;
            &&& merged_positions(boxes, n)[i] == box_face(boxes[m].aabb, k).items()[j]
            &&& merged_normals(u, n)[i] == box_normal(k, u)
            &&& merged_texture(boxes, u.zero, n)[i] == box_uvs(boxes[m], k, u.zero).items()[j]
        }),
    decreases n,
{
    let i = 24 * m + 4 * k + j;
    lemma_merged_sizes(boxes, u, n - 1);
    lemma_box_vertex(boxes[n - 1], u, 6, k, j);
    if m < n - 1 {
        lemma_merged_vertex(boxes, u, n - 1, m, k, j);
        assert(merged_positions(boxes, n)[i] == merged_positions(boxes, n - 1)[i]);
        assert(merged_normals(u, n)[i] == merged_normals(u, n - 1)[i]);
        assert(merged_texture(boxes, u.zero, n)[i] == merged_texture(boxes, u.zero, n - 1)[i]);
    } else {
        assert(merged_positions(boxes, n)[i] == box_positions(boxes[m].aabb, 6)[4 * k + j]);
        assert(merged_normals(u, n)[i] == box_normals(u, 6)[4 * k + j]);
        assert(merged_texture(boxes, u.zero, n)[i] == box_texture(boxes[m], u.zero, 6)[4 * k + j]);
    }
}

/// A face's light is grey: as much red as green as blue, and opaque.
pub proof fn law_light_is_grey<T>(light: T, one: T)
    ensures
        lit(light, one).r == light,
        lit(light, one).g == light,
        lit(light, one).b == light,
        lit(light, one).a == one,
{
}

/// Panels that face straight up or down are left out; the others keep their order.
pub proof fn law_only_upright_panels_are_drawn<T>(panels: Seq<Panel<T>>, n: int)
    requires
        0 <= n <= panels.len(),
    ensures
        upright_panels(panels, n) == panels.take(n).filter(
            |p: Panel<T>|
                p.axis_len.nan() || p.axis_len.rank() >= PANEL_AXIS_MIN_BITS,
        ),
    decreases n,
{
    let long = |p: Panel<T>| p.axis_len.nan() || p.axis_len.rank() >= PANEL_AXIS_MIN_BITS;
    reveal(Seq::filter);
    if n > 0 {
        law_only_upright_panels_are_drawn(panels, n - 1);
        assert(panels.take(n).drop_last() =~= panels.take(n - 1));
        assert(panels.take(n).last() == panels[n - 1]);
    }
}

/// Panel `k` is face `k` of the mesh: its corners, its normal, and its texture
/// extents.
pub proof fn law_panels_are_faces<T>(panels: Seq<Panel<T>>, n: int, zero: T, k: int, j: int)
    requires
        0 <= k < n <= panels.len(),
        0 <= j < 4,
    ensures
        panel_positions(panels, n).len() == 4 * n,
        panel_normals(panels, n).len() == 4 * n,
        panel_uvs(panels, n, zero).len() == 4 * n,
        panel_positions(panels, n)[4 * k + j] == panels[k].corners.items()[j],
        panel_normals(panels, n)[4 * k + j] == panels[k].normal,
        panel_uvs(panels, n, zero)[4 * k + j].u == (if j == 1 || j == 2 {
            panels[k].u_max
        } else {
            zero
        }),
        panel_uvs(panels, n, zero)[4 * k + j].v == (if j >= 2 {
            panels[k].v_max
        } else {
            zero
        }),
    decreases n,
{
    lemma_panel_sizes(panels, n, zero);
    lemma_panel_sizes(panels, n - 1, zero);
    let i = 4 * k + j;
    if k < n - 1 {
        law_panels_are_faces(panels, n - 1, zero, k, j);
        assert(panel_positions(panels, n)[i] == panel_positions(panels, n - 1)[i]);
        assert(panel_normals(panels, n)[i] == panel_normals(panels, n - 1)[i]);
        assert(panel_uvs(panels, n, zero)[i] == panel_uvs(panels, n - 1, zero)[i]);
    } else {
        assert(panel_positions(panels, n)[i] == panels[k].corners.items()[j]);
        assert(panel_normals(panels, n)[i] == four(panels[k].normal)[j]);
        assert(panel_uvs(panels, n, zero)[i] == face_uvs(
            panels[k].u_max,
            panels[k].v_max,
            zero,
        ).items()[j]);
    }
}

proof fn lemma_panel_sizes<T>(panels: Seq<Panel<T>>, n: int, zero: T)
    requires
        0 <= n <= panels.len(),
    ensures
        panel_positions(panels, n).len() == 4 * n,
        panel_normals(panels, n).len() == 4 * n,
        panel_uvs(panels, n, zero).len() == 4 * n,
    decreases n,
{
    if n > 0 {
        lemma_panel_sizes(panels, n - 1, zero);
    }
}

/// The order of a quad's corners is that of its fields.
pub proof fn law_corners_keep_their_order<P>(q: Quad<P>)
    ensures
        q.items().len() == 4,
        q.items()[0] == q.a,
        q.items()[1] == q.b,
        q.items()[2] == q.c,
        q.items()[3] == q.d,
{
}

/// A wall's family is decided by what it measures: tall walls near any edge are
/// the perimeter; of the others, what starts high is a roof, what ends low is
/// cover, and the rest are buildings.
pub proof fn law_families_follow_the_measures(m: WallMeasures)
    requires
        !m.height.nan() && !m.y0.nan() && !m.y1.nan(),
        !m.gap_x0.nan() && !m.gap_x1.nan() && !m.gap_z0.nan() && !m.gap_z1.nan(),
    ensures
        ({
            let edge = PERIMETER_EDGE_BITS as int;
            let far = m.gap_x0.rank() > edge && m.gap_x1.rank() > edge && m.gap_z0.rank() > edge
                && m.gap_z1.rank() > edge;
            let low = m.height.rank() < PERIMETER_HEIGHT_BITS;
            &&& family_of(m) == WallFamily::Perimeter <==> !far && !low
            &&& far || low ==> {
                &&& family_of(m) == WallFamily::Roof <==> m.y0.rank() > ROOF_BASE_BITS
                &&& m.y0.rank() <= ROOF_BASE_BITS ==> (family_of(m) == WallFamily::Cover
                    <==> m.y1.rank() < COVER_TOP_BITS)
                &&& family_of(m) == WallFamily::Building <==> m.y0.rank() <= ROOF_BASE_BITS
                    && m.y1.rank() >= COVER_TOP_BITS
            }
        }),
{
}

/// The four gaps count alike: which side of the arena a wall stands at does not
/// matter.
pub proof fn law_all_edges_count_alike(m: WallMeasures)
    ensures
        family_of(m) == family_of(WallMeasures { gap_x0: m.gap_x1, gap_x1: m.gap_x0, ..m }),
        family_of(m) == family_of(WallMeasures { gap_z0: m.gap_z1, gap_z1: m.gap_z0, ..m }),
        family_of(m) == family_of(
            WallMeasures {
                gap_x0: m.gap_z0,
                gap_x1: m.gap_z1,
                gap_z0: m.gap_x0,
                gap_z1: m.gap_x1,
                ..m
            },
        ),
{
}

/// Every family has a place of its own among the four.
pub proof fn law_families_have_their_own_place(a: WallFamily, b: WallFamily)
    ensures
        0 <= family_place(a) < 4,
        family_place(a) == family_place(b) <==> a == b,
        family_place(WallFamily::Perimeter) < family_place(WallFamily::Cover) < family_place(
            WallFamily::Building,
        ) < family_place(WallFamily::Roof),
{
}

/// A family's walls are those of the map with this family, in the map's order.
pub proof fn law_families_keep_the_order<T>(
    walls: Seq<(WallMeasures, TexturedBox<T>)>,
    f: WallFamily,
    n: int,
)
    requires
        0 <= n <= walls.len(),
    ensures
        members(walls, f, n) == walls.take(n).filter(
            |w: (WallMeasures, TexturedBox<T>)| family_of(w.0) == f,
        ).map_values(|w: (WallMeasures, TexturedBox<T>)| w.1),
    decreases n,
{
    let own = |w: (WallMeasures, TexturedBox<T>)| family_of(w.0) == f;
    let bare = |w: (WallMeasures, TexturedBox<T>)| w.1;
    reveal(Seq::filter);
    if n > 0 {
        law_families_keep_the_order(walls, f, n - 1);
        assert(walls.take(n).drop_last() =~= walls.take(n - 1));
        assert(walls.take(n).last() == walls[n - 1]);
        let kept = walls.take(n - 1).filter(own);
        assert(kept.push(walls[n - 1]).map_values(bare) =~= kept.map_values(bare).push(
            walls[n - 1].1,
        ));
    } else {
        assert(walls.take(n).filter(own).map_values(bare) =~= Seq::empty());
    }
}

/// Products and sums modulo 2^32 are the true ones but for whole multiples of 2^32.
pub proof fn law_wrapping_drops_whole_turns(a: u32, b: u32)
    ensures
        (a + b - wrapped_sum(a, b)) % 0x1_0000_0000 == 0,
        a + b < 0x1_0000_0000 ==> wrapped_sum(a, b) == a + b,
        (a * b - wrapped_mul(a, b)) % 0x1_0000_0000 == 0,
        a * b < 0x1_0000_0000 ==> wrapped_mul(a, b) == a * b,
{
    let p = a * b;
    assert(p >= 0) by (nonlinear_arith)
        requires
            p == a * b,
    ;
    assert(0 <= p % 0x1_0000_0000 < 0x1_0000_0000);
}

proof fn lemma_product_is_undone(a: u32, b: u32, c: u32, back: int, turns: int)
    requires
        c * back == 1 + turns * 0x1_0000_0000,
        wrapped_mul(a, c) == wrapped_mul(b, c),
    ensures
        a == b,
{
    let m = 0x1_0000_0000int;
    let (p, q) = (a * c, b * c);
    assert(p >= 0 && q >= 0) by (nonlinear_arith)
        requires
            p == a * c,
            q == b * c,
    ;
    assert(0 <= p % m < m && 0 <= q % m < m);
    assert(p % m == q % m);
    let t = p / m - q / m;
    let d = a - b;
    assert(d * c == m * t) by (nonlinear_arith)
        requires
            p == a * c,
            q == b * c,
            d == a - b,
            p == m * (p / m) + p % m,
            q == m * (q / m) + q % m,
            p % m == q % m,
            t == p / m - q / m,
    ;
    let s = t * back - d * turns;
    assert(d == m * s) by (nonlinear_arith)
        requires
            d * c == m * t,
            c * back == 1 + turns * m,
            s == t * back - d * turns,
    ;
    assert(s == 0) by (nonlinear_arith)
        requires
            d == m * s,
            m == 0x1_0000_0000,
            -m < d < m,
    ;
}

/// Scrambling loses nothing: different numbers stay different.
pub proof fn law_scrambling_keeps_numbers_apart(m: u32, n: u32)
    ensures
        scrambled(m) == scrambled(n) <==> m == n,
{
    if scrambled(m) == scrambled(n) {
        let (a1, a2) = (wrapped_mul(m, 2654435761), wrapped_mul(n, 2654435761));
        let (b1, b2) = (a1 ^ (a1 >> 16u32), a2 ^ (a2 >> 16u32));
        let (e1, e2) = (wrapped_mul(b1, 2246822519), wrapped_mul(b2, 2246822519));
        assert((e1 ^ (e1 >> 13u32)) == (e2 ^ (e2 >> 13u32)) ==> e1 == e2) by (bit_vector);
        assert(2246822519int * 3066638151int == 1 + 1604247758int * 0x1_0000_0000);
        lemma_product_is_undone(b1, b2, 2246822519, 3066638151, 1604247758);
        assert((a1 ^ (a1 >> 16u32)) == (a2 ^ (a2 >> 16u32)) ==> a1 == a2) by (bit_vector);
        assert(2654435761int * 244002641int == 1 + 150801925int * 0x1_0000_0000);
        lemma_product_is_undone(m, n, 2654435761, 244002641, 150801925);
    }
}

proof fn lemma_wrapped_sums(x: int, y: int)
    requires
        0 <= x,
        0 <= y,
    ensures
        wrapped_sum((x % 0x1_0000_0000) as u32, (y % 0x1_0000_0000) as u32) == (x + y)
            % 0x1_0000_0000,
{
    vstd::arithmetic::div_mod::lemma_add_mod_noop(x, y, 0x1_0000_0000);
}

/// A cell's light depends on the face's seed and on how far down and along the cell
/// is, and on nothing else: cells for which these add up to the same are alike.
pub proof fn law_cells_are_lit_by_their_place(seed: u32, row: u32, col: u32)
    ensures
        cell_is_dark(seed, row, col) <==> scrambled(
            ((seed + 31 * row + 17 * col) % 0x1_0000_0000) as u32,
        ) % 7 == 0,
{
    lemma_wrapped_sums(31 * row as int, 17 * col as int);
    lemma_wrapped_sums(seed as int, 31 * row + 17 * col);
    assert(row * 31 == 31 * row && col * 17 == 17 * col);
    assert(seed as int % 0x1_0000_0000 == seed);
}

/// A face's seed is made of the wall's number and the face's.
pub proof fn law_seeds_tell_faces_apart(wall: u32, face: int, other: int)
    requires
        0 <= face < 4,
        0 <= other < 4,
    ensures
        face_seed(wall as int, face) == (wall * 2654435761 + face * 1597334677) % 0x1_0000_0000,
        face != other ==> face_seed(wall as int, face) != face_seed(wall as int, other),
{
    lemma_wrapped_sums(wall * 2654435761, face * 1597334677);
    lemma_wrapped_sums(wall * 2654435761, other * 1597334677);
    assert(wall as int % 0x1_0000_0000 == wall);
}

/// A texel's noise depends on a weighted sum of its place and the salt alone.
pub proof fn law_noise_is_a_function_of_one_sum(x: u32, y: u32, salt: u32, p: u32, q: u32, r: u32)
    requires
        (x * 374761393 + y * 668265263 + salt * 2246822519) % 0x1_0000_0000 == (p * 374761393 + q
            * 668265263 + r * 2246822519) % 0x1_0000_0000,
    ensures
        noise_bits(x, y, salt) == noise_bits(p, q, r),
{
    lemma_wrapped_sums(x * 374761393, y * 668265263);
    lemma_wrapped_sums(x * 374761393 + y * 668265263, salt * 2246822519);
    lemma_wrapped_sums(p * 374761393, q * 668265263);
    lemma_wrapped_sums(p * 374761393 + q * 668265263, r * 2246822519);
}

/// A baked texture's side is a power of two, and needing more never gives less.
pub proof fn law_baked_sides_are_powers_of_two(needed: int, more: int, base: int)
    requires
        base == BASE_GROUND_TEX_RES || base == BASE_OCCLUSION_RES,
        needed <= more,
    ensures
        ({
            let r = bake_res(needed, base);
            &&& r == 256 || r == 512 || r == 1024 || r == 2048
            &&& r <= bake_res(more, base)
            &&& needed <= base ==> r == base
            &&& needed == 512 || needed == 1024 || needed == 2048 ==> r == (if needed < base {
                base
            } else {
                needed
            })
        }),
{
    reveal_with_fuel(bake_res, 5);
}

/// Every cell of a grid has a place of its own within it.
pub proof fn law_grid_places_are_distinct(x: int, z: int, a: int, b: int, res: int)
    requires
        0 <= x < res,
        0 <= z < res,
        0 <= a < res,
        0 <= b < res,
    ensures
        0 <= grid_place(x, z, res) < res * res,
        grid_place(x, z, res) == grid_place(a, b, res) <==> x == a && z == b,
        x + 1 < res ==> grid_place(x + 1, z, res) == grid_place(x, z, res) + 1,
{
    lemma_cell_number(z, x, res, res);
    lemma_cell_number(b, a, res, res);
}

/// Signs repeat every four slots, and the four are different.
pub proof fn law_signs_repeat_every_four_slots(a: u8, b: u8)
    ensures
        a % 4 == b % 4 ==> ad_background(a) == ad_background(b) && ad_border(a) == ad_border(b),
        a % 4 != b % 4 ==> ad_background(a) != ad_background(b) && ad_border(a) != ad_border(b),
        ad_background(a) != ad_border(b),
{
}

/// A pattern's colour is the lighter the darker the background is, and never dark.
pub proof fn law_patterns_stand_out(a: Rgb, b: Rgb)
    ensures
        ad_pattern(a).r >= 128 && ad_pattern(a).g >= 128 && ad_pattern(a).b >= 128,
        a.r <= b.r ==> ad_pattern(a).r >= ad_pattern(b).r,
        a.g <= b.g ==> ad_pattern(a).g >= ad_pattern(b).g,
        a.b <= b.b ==> ad_pattern(a).b >= ad_pattern(b).b,
        2 * ad_pattern(a).r + a.r == 510 || 2 * ad_pattern(a).r + a.r == 511,
        2 * ad_pattern(a).g + a.g == 510 || 2 * ad_pattern(a).g + a.g == 511,
        2 * ad_pattern(a).b + a.b == 510 || 2 * ad_pattern(a).b + a.b == 511,
{
}

/// A sign's frame: the border runs all round, six pixels wide; within it the upper
/// and lower quarters are plain.
pub proof fn law_signs_have_a_frame(slot: u8, width: int, height: int, x: int, y: int)
    requires
        0 <= x < width,
        0 <= y < height,
        width >= 12,
        height >= 12,
    ensures
        ({
            let p = ad_pixel(slot, width, height, x, y);
            let inner = 6 <= x && x + 6 < width && 6 <= y && y + 6 < height;
            &&& !inner ==> p == ad_border(slot)
            &&& inner && (4 * y < height || 4 * y >= 3 * height) ==> p == ad_background(slot)
            &&& inner ==> p == ad_background(slot) || p == ad_pattern(ad_background(slot))
        }),
{
}

/// Across the middle the pattern changes over every twelve pixels along either axis
/// on even slots, and every sixteen on odd ones; on even slots it runs diagonally.
pub proof fn law_signs_have_a_pattern(slot: u8, width: int, height: int, x: int, y: int)
    requires
        6 <= x,
        6 <= y,
        x + 22 < width,
        y + 6 < height,
        height / 4 < y < (height * 3) / 4,
    ensures
        ({
            let bg = ad_background(slot);
            let here = ad_pixel(slot, width, height, x, y);
            let step = if slot % 2 == 0 {
                12int
            } else {
                16int
            };
            let over = ad_pixel(slot, width, height, x + step, y);
            &&& here == ad_pattern(bg) <==> over == bg
            &&& here == bg <==> over == ad_pattern(bg)
            &&& slot % 2 == 0 && y - 1 > height / 4 && y > 6 ==> ad_pixel(
                slot,
                width,
                height,
                x + 1,
                y - 1,
            ) == here
            &&& slot % 2 != 0 && y - 16 > height / 4 && y >= 22 ==> (here == bg <==> ad_pixel(
                slot,
                width,
                height,
                x,
                y - 16,
            ) == ad_pattern(bg))
        }),
{
    let bg = ad_background(slot);
    assert(bg != ad_pattern(bg));
    assert((x + 12 + y) / 12 == (x + y) / 12 + 1);
    assert((x + 16) / 16 == x / 16 + 1);
    assert((y - 16) / 16 == y / 16 - 1);
    assert(x + 1 + (y - 1) == x + y);
}

/// A sign's bytes are its pixels' channels: red, green, blue and full opacity, row
/// by row.
pub proof fn law_sign_bytes_are_its_pixels(slot: u8, width: int, height: int, x: int, y: int)
    requires
        0 <= x < width,
        0 <= y < height,
    ensures
        ({
            let i = 4 * (y * width + x);
            let p = ad_pixel(slot, width, height, x, y);
            &&& ad_byte(slot, width, height, i) == p.r
            &&& ad_byte(slot, width, height, i + 1) == p.g
            &&& ad_byte(slot, width, height, i + 2) == p.b
            &&& ad_byte(slot, width, height, i + 3) == 255
            &&& 0 <= i && i + 3 < width * height * 4
        }),
{
    lemma_cell_number(y, x, height, width);
    let k = y * width + x;
    assert((4 * k) / 4 == k && (4 * k + 1) / 4 == k && (4 * k + 2) / 4 == k && (4 * k + 3) / 4
        == k);
    assert(width * height == height * width) by (nonlinear_arith);
}

/// The environments' weather: only the desert's sky is warmer than it is cold, its
/// sun the strongest and its shade the brightest; the mountain's shade is the
/// darkest; suns are warm and stand to the east but at the sea and in Rome.
pub proof fn law_weather_suits_the_place(env: EnvKind)
    ensures
        ({
            let l = lighting_of(env);
            let desert = lighting_of(EnvKind::DesertTown);
            let mountain = lighting_of(EnvKind::MountainTown);
            let city = lighting_of(EnvKind::Urban);
            &&& env is DesertTown <==> l.sky.r > l.sky.b
            &&& env is DesertTown || env is RomeEur <==> l.ambient.r > l.ambient.b
            &&& l.sun_color.r == 255 && l.sun_color.g >= 230 && l.sun_color.b >= 185
            &&& l.sun_color.r > l.sun_color.g > l.sun_color.b
            &&& l.sun_illuminance <= desert.sun_illuminance && city.sun_illuminance
                <= l.sun_illuminance
            &&& mountain.ambient_brightness <= l.ambient_brightness
                <= desert.ambient_brightness
            &&& env is SeaTown || env is RomeEur <==> l.sun_x < 0
            &&& l.sun_y >= 20 && l.sun_z > 0
            &&& l.sun_y > l.sun_x && l.sun_y > -l.sun_x && l.sun_y > l.sun_z
        }),
        lighting_of(EnvKind::MountainTown).sun_illuminance > lighting_of(
            EnvKind::RomeEur,
        ).sun_illuminance > lighting_of(EnvKind::SeaTown).sun_illuminance,
        lighting_of(EnvKind::Urban).ambient_brightness < lighting_of(
            EnvKind::SeaTown,
        ).ambient_brightness,
        lighting_of(EnvKind::SeaTown).ambient_brightness == lighting_of(
            EnvKind::RomeEur,
        ).ambient_brightness,
{
}

/// The environments' walls: Rome's buildings are the palest, the mountain's the
/// darkest; warm colours but for the sea town's buildings and the greys of the
/// perimeters; and no family looks like another.
pub proof fn law_walls_suit_the_place(env: EnvKind)
    ensures
        ({
            let c = colors_of(env);
            let rome = colors_of(EnvKind::RomeEur);
            let mountain = colors_of(EnvKind::MountainTown);
            &&& mountain.building.x <= c.building.x <= rome.building.x
            &&& mountain.building.y <= c.building.y <= rome.building.y
            &&& mountain.building.z <= c.building.z <= rome.building.z
            &&& env is SeaTown <==> c.building.x < c.building.z
            &&& env is Urban <==> c.roof.x < c.roof.z
            &&& env is DesertTown || env is RomeEur <==> c.perimeter.x > c.perimeter.z
            &&& c.cover.x > c.cover.y > c.cover.z
            &&& c.perimeter != c.cover && c.perimeter != c.building && c.perimeter != c.roof
            &&& c.cover != c.building && c.cover != c.roof && c.building != c.roof
        }),
{
}

/// The cell is a window of its wall: the wall and the face may have windows, the
/// face's hash gives it some, in a grid of this size, and the cell is not dark.
pub open spec fn is_window(front: WallFront, s: SlitCell) -> bool {
    let seed = face_seed(s.wall as int, s.face as int);
    let h = scrambled(seed);
    &&& s.face < 4
    &&& front.eligible() && front.has_rows() && front.wide(s.face as int)
    &&& h % 5 != 0
    &&& s.cols == 1 + h % front.max_cols(s.face as int)
    &&& s.rows == 1 + (h >> 8u32) % front.rows
    &&& s.row < s.rows
    &&& s.col < s.cols
    &&& !cell_is_dark(seed, s.row, s.col)
}

/// A map's windows, but for the cap, are exactly the lit cells.
pub proof fn law_lit_cells_are_the_windows(fronts: Seq<WallFront>, n: int, s: SlitCell)
    requires
        0 <= n <= fronts.len() <= usize::MAX,
        forall|i: int| 0 <= i < fronts.len() ==> (#[trigger] fronts[i]).wf(),
    ensures
        all_slits(fronts, n).contains(s) <==> s.wall < n && is_window(fronts[s.wall as int], s),
    decreases n,
{
    if n > 0 {
        law_lit_cells_are_the_windows(fronts, n - 1, s);
        lemma_wall_windows(fronts[n - 1], n - 1, 4, s);
        lemma_either_holds(all_slits(fronts, n - 1), wall_slits(fronts[n - 1], n - 1, 4), s);
    }
}

proof fn lemma_either_holds(a: Seq<SlitCell>, b: Seq<SlitCell>, s: SlitCell)
    ensures
        (a + b).contains(s) <==> a.contains(s) || b.contains(s),
{
    if a.contains(s) {
        let i = choose|i: int| 0 <= i < a.len() && a[i] == s;
        assert((a + b)[i] == s);
    }
    if b.contains(s) {
        let i = choose|i: int| 0 <= i < b.len() && b[i] == s;
        assert((a + b)[a.len() + i] == s);
    }
    if (a + b).contains(s) {
        let i = choose|i: int| 0 <= i < (a + b).len() && (a + b)[i] == s;
        if i < a.len() {
            assert(a[i] == s);
        } else {
            assert(b[i - a.len()] == s);
        }
    }
}

proof fn lemma_wall_windows(front: WallFront, wall: int, f: int, s: SlitCell)
    requires
        0 <= wall <= usize::MAX,
        0 <= f <= 4,
        front.wf(),
    ensures
        wall_slits(front, wall, f).contains(s) <==> s.wall == wall && s.face < f && is_window(
            front,
            s,
        ),
    decreases f,
{
    if f > 0 {
        let face = f - 1;
        lemma_wall_windows(front, wall, face, s);
        lemma_either_holds(wall_slits(front, wall, face), face_slits(front, wall, face), s);
        let seed = face_seed(wall, face);
        let h = scrambled(seed);
        if front.eligible() && front.wide(face) && h % 5 != 0 && front.has_rows() {
            let cols = (1 + h % front.max_cols(face)) as u32;
            let rows = (1 + (h >> 8u32) % front.rows) as u32;
            lemma_grid_windows(seed, wall, face, rows, cols, rows * cols, s);
            if s.row < rows && s.col < cols {
                lemma_cell_number(s.row as int, s.col as int, rows as int, cols as int);
            }
        }
    }
}

proof fn lemma_grid_windows(
    seed: u32,
    wall: int,
    face: int,
    rows: u32,
    cols: u32,
    n: int,
    s: SlitCell,
)
    requires
        0 <= wall <= usize::MAX,
        0 <= face < 4,
        0 < cols,
        0 <= n <= rows * cols,
    ensures
        grid_slits(seed, wall, face, rows, cols, n).contains(s) <==> {
            &&& s.wall == wall
            &&& s.face == face
            &&& s.rows == rows
            &&& s.cols == cols
            &&& s.row < rows
            &&& s.col < cols
            &&& s.row * cols + s.col < n
            &&& !cell_is_dark(seed, s.row, s.col)
        },
    decreases n,
{
    let c = cols as int;
    if n > 0 {
        let m = n - 1;
        lemma_grid_windows(seed, wall, face, rows, cols, m, s);
        assert(0 <= m / c < rows && 0 <= m % c < c && (m / c) * c + m % c == m) by (nonlinear_arith)
            requires
                0 <= m < rows * c,
                0 < c,
        ;
        let row = (m / c) as u32;
        let col = (m % c) as u32;
        let before = grid_slits(seed, wall, face, rows, cols, m);
        let now = grid_slits(seed, wall, face, rows, cols, n);
        if s.row < rows && s.col < cols {
            lemma_cell_number(s.row as int, s.col as int, rows as int, c);
        }
        assert(s.row < rows && s.col < cols && s.row * cols + s.col == m ==> s.row == row && s.col
            == col);
        if !cell_is_dark(seed, row, col) {
            let one = SlitCell { wall: wall as usize, face: face as usize, row, col, rows, cols };
            assert(now =~= before + seq![one]);
            lemma_either_holds(before, seq![one], s);
            assert(seq![one].contains(s) <==> s == one) by {
                assert(seq![one][0] == one);
            }
        }
    } else if s.row < rows && s.col < cols {
        lemma_cell_number(s.row as int, s.col as int, rows as int, c);
    }
}

/// One window comes before another: by wall, then by face, then row by row.
pub open spec fn comes_before(a: SlitCell, b: SlitCell) -> bool {
    if a.wall != b.wall {
        a.wall < b.wall
    } else if a.face != b.face {
        a.face < b.face
    } else if a.row != b.row {
        a.row < b.row
    } else {
        a.col < b.col
    }
}

/// Windows are listed wall by wall, face by face and row by row; none twice.
pub proof fn law_windows_come_in_order(fronts: Seq<WallFront>, n: int, i: int, j: int)
    requires
        0 <= n <= fronts.len() <= usize::MAX,
        forall|i: int| 0 <= i < fronts.len() ==> (#[trigger] fronts[i]).wf(),
        0 <= i < j < all_slits(fronts, n).len(),
    ensures
        comes_before(all_slits(fronts, n)[i], all_slits(fronts, n)[j]),
    decreases n,
{
    if n > 0 {
        let before = all_slits(fronts, n - 1);
        let own = wall_slits(fronts[n - 1], n - 1, 4);
        let all = all_slits(fronts, n);
        if j < before.len() {
            law_windows_come_in_order(fronts, n - 1, i, j);
        } else if i < before.len() {
            law_lit_cells_are_the_windows(fronts, n - 1, before[i]);
            lemma_wall_windows(fronts[n - 1], n - 1, 4, own[j - before.len()]);
            assert(before.contains(before[i]));
            assert(own.contains(own[j - before.len()]));
        } else {
            lemma_wall_order(fronts[n - 1], n - 1, 4, i - before.len(), j - before.len());
        }
    }
}

proof fn lemma_wall_order(front: WallFront, wall: int, f: int, i: int, j: int)
    requires
        0 <= wall <= usize::MAX,
        0 <= f <= 4,
        front.wf(),
        0 <= i < j < wall_slits(front, wall, f).len(),
    ensures
        comes_before(wall_slits(front, wall, f)[i], wall_slits(front, wall, f)[j]),
    decreases f,
{
    if f > 0 {
        let face = f - 1;
        let before = wall_slits(front, wall, face);
        let own = face_slits(front, wall, face);
        if j < before.len() {
            lemma_wall_order(front, wall, face, i, j);
        } else {
            let seed = face_seed(wall, face);
            let h = scrambled(seed);
            let cols = (1 + h % front.max_cols(face)) as u32;
            let rows = (1 + (h >> 8u32) % front.rows) as u32;
            lemma_grid_cells(seed, wall, face, rows, cols, rows * cols, j - before.len());
            if i < before.len() {
                lemma_wall_windows(front, wall, face, before[i]);
                assert(before.contains(before[i]));
            } else {
                lemma_grid_order(
                    seed,
                    wall,
                    face,
                    rows,
                    cols,
                    rows * cols,
                    i - before.len(),
                    j - before.len(),
                );
            }
        }
    }
}

proof fn lemma_grid_order(
    seed: u32,
    wall: int,
    face: int,
    rows: u32,
    cols: u32,
    n: int,
    i: int,
    j: int,
)
    requires
        0 <= wall <= usize::MAX,
        0 <= face < 4,
        0 < cols,
        0 <= n <= rows * cols,
        0 <= i < j < grid_slits(seed, wall, face, rows, cols, n).len(),
    ensures
        comes_before(
            grid_slits(seed, wall, face, rows, cols, n)[i],
            grid_slits(seed, wall, face, rows, cols, n)[j],
        ),
    decreases n,
{
    if n > 0 {
        let m = n - 1;
        let c = cols as int;
        let before = grid_slits(seed, wall, face, rows, cols, m);
        if j < before.len() {
            lemma_grid_order(seed, wall, face, rows, cols, m, i, j);
        } else {
            let a = before[i];
            lemma_grid_windows(seed, wall, face, rows, cols, m, a);
            assert(before.contains(a));
            assert(0 <= m / c < rows && 0 <= m % c < c && (m / c) * c + m % c == m)
                by (nonlinear_arith)
                requires
                    0 <= m < rows * c,
                    0 < c,
            ;
            let row = m / c;
            assert(a.row <= row) by (nonlinear_arith)
                requires
                    a.row * c + a.col < m,
                    m == row * c + m % c,
                    0 <= m % c < c,
                    0 <= a.col,
            ;
        }
    }
}

/// The cap keeps the first windows and drops only what is past it.
pub proof fn law_the_cap_keeps_the_first(s: Seq<SlitCell>, i: int)
    ensures
        capped(s).len() == (if s.len() <= 512 {
            s.len()
        } else {
            512
        }),
        0 <= i < capped(s).len() ==> capped(s)[i] == s[i],
{
}

/// Which walls may have windows: buildings of some height with room above the
/// ground floor, on faces wide enough, the width taken across the way a face looks.
pub proof fn law_windows_need_room(front: WallFront, face: int)
    requires
        0 <= face < 4,
        !front.height.nan() && !front.upper.nan() && !front.width_x.nan() && !front.width_z.nan(),
    ensures
        front.eligible() <==> front.family == WallFamily::Building && front.height.rank()
            >= WINDOW_MIN_HEIGHT_BITS,
        front.has_rows() <==> front.upper.rank() >= WINDOW_H_BITS,
        face == 0 || face == 1 ==> (front.wide(face) <==> front.width_z.rank() >= WINDOW_FACE_BITS)
            && front.max_cols(face) == front.cols_z,
        face == 2 || face == 3 ==> (front.wide(face) <==> front.width_x.rank() >= WINDOW_FACE_BITS)
            && front.max_cols(face) == front.cols_x,
{
}

} // verus!
