//! The Wavefront .obj reader. It is fed one line at a time; a `mtllib` line
//! hands the library's name back to the caller, who reads that file and
//! registers its materials before feeding the next line. Numbers are checked
//! to be finite decimal literals and kept as text.
use vstd::prelude::*;
use crate::lex::{
    i32_literal, number_literal, parse_i32, pieces, split_on, split_words, words, is_number,
};
use crate::mesh::Triangle;
use crate::mtl::MaterialSource;

verus! {

/// The field of a record that an error is about.
#[derive(Clone, Copy, Debug, PartialEq, Eq, Structural)]
pub enum Field {
    X,
    Y,
    Z,
    U,
    V,
    W,
    VertexIndex,
    TextureIndex,
    NormalIndex,
    LibraryName,
    MaterialName,
    Red,
    Green,
    Blue,
    Transparency,
    ImageFile,
}

#[derive(Clone, Copy, Debug, PartialEq, Eq, Structural)]
pub enum ErrorKind {
    /// The record ends before this field.
    Missing(Field),
    /// The field is not a number of the kind the record needs.
    Invalid(Field),
    /// A face names fewer than three vertices.
    TooFewVertices,
    /// A face refers to a vertex that has not been defined.
    VertexOutOfRange,
    /// A face refers to a normal that has not been defined.
    NormalOutOfRange,
    /// A face was given while the current material is not registered.
    UnknownMaterial,
}

/// An error of a .obj or .mtl file, at a 1-based line number.
#[derive(Clone, Copy, Debug, PartialEq, Eq, Structural)]
pub struct LoadError {
    pub line: usize,
    pub kind: ErrorKind,
}

/// One vertex of a face record, `v[/[vt][/vn]]`, as the file writes it:
/// 1-based indices, never 0 when given; a negative index is read by its
/// magnitude and reverses the winding of its face; 0 where the texture or
/// normal index is absent.
#[derive(Clone, Copy, Debug, PartialEq, Eq, Structural)]
pub struct FaceVertex {
    pub v: i32,
    pub vt: i32,
    pub vn: i32,
}

/// An optional index field: absent or empty gives 0; a given index is never
/// 0.
pub open spec fn optional_index(p: Seq<Seq<char>>, j: int, f: Field) -> Result<i32, ErrorKind> {
    if j < p.len() && p[j].len() > 0 {
        match i32_literal(p[j]) {
            Some(n) => if n != 0 {
                Ok(n)
            } else {
                Err(ErrorKind::Invalid(f))
            },
            None => Err(ErrorKind::Invalid(f)),
        }
    } else {
        Ok(0)
    }
}

pub open spec fn face_vertex_spec(tok: Seq<char>) -> Result<FaceVertex, ErrorKind> {
    let p = pieces(tok, '/');
    match i32_literal(p[0]) {
        None => Err(ErrorKind::Invalid(Field::VertexIndex)),
        Some(v) => if v == 0 {
            Err(ErrorKind::Invalid(Field::VertexIndex))
        } else {
            match optional_index(p, 1, Field::TextureIndex) {
            Err(e) => Err(e),
            Ok(vt) => match optional_index(p, 2, Field::NormalIndex) {
                Err(e) => Err(e),
                Ok(vn) => Ok(FaceVertex { v, vt, vn }),
            },
        }
        },
    }
}

fn optional_index_of(p: &Vec<String>, j: usize, f: Field) -> (r: Result<i32, ErrorKind>)
    ensures
        r == optional_index(p@.map_values(|s: String| s@), j as int, f),
{
    let ghost pv = p@.map_values(|s: String| s@);
    if j < p.len() && p[j].unicode_len() > 0 {
        assert(pv[j as int] == p@[j as int]@);
        match parse_i32(p[j].as_str()) {
            Some(n) => if n != 0 {
                Ok(n)
            } else {
                Err(ErrorKind::Invalid(f))
            },
            None => Err(ErrorKind::Invalid(f)),
        }
    } else {
        proof {
            if j < p.len() {
                assert(pv[j as int] == p@[j as int]@);
            }
        }
        Ok(0)
    }
}

proof fn lemma_pieces_nonempty(s: Seq<char>, sep: char)
    ensures
        pieces(s, sep).len() >= 1,
    decreases s.len(),
{
    if s.len() > 0 {
        lemma_pieces_nonempty(s.drop_last(), sep);
    }
}

/// Reads one vertex of a face record.
pub fn parse_face_vertex(tok: &str) -> (r: Result<FaceVertex, ErrorKind>)
    ensures
        r == face_vertex_spec(tok@),
{
    let p = split_on(tok, '/');
    let ghost pv = p@.map_values(|s: String| s@);
    proof {
        lemma_pieces_nonempty(tok@, '/');
        assert(pv =~= pieces(tok@, '/'));
    }
    match parse_i32(p[0].as_str()) {
        None => Err(ErrorKind::Invalid(Field::VertexIndex)),
        Some(v) => if v == 0 {
            Err(ErrorKind::Invalid(Field::VertexIndex))
        } else {
            match optional_index_of(&p, 1, Field::TextureIndex) {
                Err(e) => Err(e),
                Ok(vt) => match optional_index_of(&p, 2, Field::NormalIndex) {
                    Err(e) => Err(e),
                    Ok(vn) => Ok(FaceVertex { v, vt, vn }),
                },
            }
        },
    }
}

pub open spec fn abs_int(n: int) -> int {
    if n < 0 {
        -n
    } else {
        n
    }
}

/// The 0-based position index of a face vertex: the magnitude of v, less
/// one (a negative index keeps its magnitude).
pub open spec fn position_slot(f: FaceVertex) -> int {
    abs_int(f.v as int) - 1
}

/// The stored (1-based) texture index: the magnitude of vt, 0 where absent.
pub open spec fn texture_slot(f: FaceVertex) -> int {
    abs_int(f.vt as int)
}

/// The stored normal index: the magnitude of vn (0 where absent).
pub open spec fn normal_slot(f: FaceVertex) -> int {
    abs_int(f.vn as int)
}

/// A face with a negative position index is wound the other way.
pub open spec fn is_reversed(poly: Seq<FaceVertex>) -> bool {
    exists|m: int| 0 <= m < poly.len() && (#[trigger] poly[m]).v < 0
}

pub open spec fn corner_triangle(p: FaceVertex, q: FaceVertex, r: FaceVertex, mtl: usize) -> Triangle {
    Triangle {
        verts: [position_slot(p) as usize, position_slot(q) as usize, position_slot(r) as usize],
        texes: [texture_slot(p) as usize, texture_slot(q) as usize, texture_slot(r) as usize],
        norms: [normal_slot(p) as usize, normal_slot(q) as usize, normal_slot(r) as usize],
        mtl,
    }
}

/// Triangle j of the fan of a polygon p[0..n): the corners p[j + 1], p[0],
/// p[j + 2], or p[0], p[j + 1], p[j + 2] for a reversed face.
pub open spec fn fan_triangle(poly: Seq<FaceVertex>, j: int, mtl: usize) -> Triangle {
    if is_reversed(poly) {
        corner_triangle(poly[0], poly[j + 1], poly[j + 2], mtl)
    } else {
        corner_triangle(poly[j + 1], poly[0], poly[j + 2], mtl)
    }
}

fn magnitude(n: i32) -> (r: usize)
    ensures
        r == abs_int(n as int),
{
    let m = n as i64;
    if m < 0 {
        (-m) as usize
    } else {
        m as usize
    }
}

fn corner_of(p: FaceVertex, q: FaceVertex, r: FaceVertex, mtl: usize) -> (t: Triangle)
    requires
        p.v != 0,
        q.v != 0,
        r.v != 0,
    ensures
        t == corner_triangle(p, q, r, mtl),
{
    Triangle {
        verts: [magnitude(p.v) - 1, magnitude(q.v) - 1, magnitude(r.v) - 1],
        texes: [magnitude(p.vt), magnitude(q.vt), magnitude(r.vt)],
        norms: [magnitude(p.vn), magnitude(q.vn), magnitude(r.vn)],
        mtl,
    }
}

/// Splits a convex polygon of at least three vertices into the triangles of
/// the fan around its first vertex, all with the material `mtl`. Position
/// indices are never 0.
pub fn triangulate(poly: &Vec<FaceVertex>, mtl: usize) -> (r: Vec<Triangle>)
    requires
        poly@.len() >= 3,
        forall|m: int| 0 <= m < poly@.len() ==> (#[trigger] poly@[m]).v != 0,
    ensures
        r@.len() == poly@.len() - 2,
        forall|j: int| 0 <= j < r@.len() ==> #[trigger] r@[j] == fan_triangle(poly@, j, mtl),
{
    let n = poly.len();
    let mut reversed = false;
    let mut m: usize = 0;
    while m < n
        invariant
            n == poly@.len(),
            m <= n,
            reversed == exists|m2: int| 0 <= m2 < m && (#[trigger] poly@[m2]).v < 0,
        decreases n - m,
    {
        if poly[m].v < 0 {
            reversed = true;
        }
        m = m + 1;
    }
    let mut r: Vec<Triangle> = Vec::new();
    let mut j: usize = 0;
    while j + 2 < n
        invariant
            n == poly@.len(),
            n >= 3,
            j + 2 <= n,
            r@.len() == j,
            reversed == is_reversed(poly@),
            forall|m: int| 0 <= m < poly@.len() ==> (#[trigger] poly@[m]).v != 0,
            forall|j2: int| 0 <= j2 < j ==> #[trigger] r@[j2] == fan_triangle(poly@, j2, mtl),
        decreases n - j,
    {
        let t = if reversed {
            corner_of(poly[0], poly[j + 1], poly[j + 2], mtl)
        } else {
            corner_of(poly[j + 1], poly[0], poly[j + 2], mtl)
        };
        r.push(t);
        j = j + 1;
    }
    r
}

/// The texts of a list of strings.
pub open spec fn text_of(v: Vec<String>) -> Seq<Seq<char>> {
    v@.map_values(|s: String| s@)
}

pub open spec fn texts_of(v: Seq<Vec<String>>) -> Seq<Seq<Seq<char>>> {
    v.map_values(|t: Vec<String>| text_of(t))
}

/// Whether the word w is the keyword k.
pub fn word_is(w: &str, k: &str) -> (r: bool)
    ensures
        r == (w@ == k@),
{
    let n = w.unicode_len();
    if n != k.unicode_len() {
        return false;
    }
    let mut i: usize = 0;
    while i < n
        invariant
            n == w@.len(),
            n == k@.len(),
            i <= n,
            forall|j: int| 0 <= j < i ==> w@[j] == k@[j],
        decreases n - i,
    {
        if w.get_char(i) != k.get_char(i) {
            return false;
        }
        i = i + 1;
    }
    assert(w@ =~= k@);
    true
}

/// Field j of a record must be there and be a number literal.
pub open spec fn field_check(ws: Seq<Seq<char>>, j: int, f: Field) -> Option<ErrorKind> {
    if ws.len() <= j {
        Some(ErrorKind::Missing(f))
    } else if !number_literal(ws[j]) {
        Some(ErrorKind::Invalid(f))
    } else {
        None
    }
}

/// Fields 1, 2 and 3 must be number literals; the first that is not decides
/// the error.
pub open spec fn triple_check(ws: Seq<Seq<char>>, f1: Field, f2: Field, f3: Field) -> Option<ErrorKind> {
    match field_check(ws, 1, f1) {
        Some(e) => Some(e),
        None => match field_check(ws, 2, f2) {
            Some(e) => Some(e),
            None => field_check(ws, 3, f3),
        },
    }
}

/// Field j of a record, where given, must be a number literal.
pub open spec fn optional_check(ws: Seq<Seq<char>>, j: int, f: Field) -> Option<ErrorKind> {
    if ws.len() > j && !number_literal(ws[j]) {
        Some(ErrorKind::Invalid(f))
    } else {
        None
    }
}

pub(crate) fn check_number(ws: &Vec<String>, j: usize, f: Field) -> (r: Option<ErrorKind>)
    ensures
        r == field_check(text_of(*ws), j as int, f),
{
    if ws.len() <= j {
        Some(ErrorKind::Missing(f))
    } else if !is_number(ws[j].as_str()) {
        Some(ErrorKind::Invalid(f))
    } else {
        None
    }
}

pub(crate) fn check_triple(ws: &Vec<String>, f1: Field, f2: Field, f3: Field) -> (r: Option<ErrorKind>)
    ensures
        r == triple_check(text_of(*ws), f1, f2, f3),
{
    match check_number(ws, 1, f1) {
        Some(e) => Some(e),
        None => match check_number(ws, 2, f2) {
            Some(e) => Some(e),
            None => check_number(ws, 3, f3),
        },
    }
}

fn check_optional(ws: &Vec<String>, j: usize, f: Field) -> (r: Option<ErrorKind>)
    ensures
        r == optional_check(text_of(*ws), j as int, f),
{
    if ws.len() > j && !is_number(ws[j].as_str()) {
        Some(ErrorKind::Invalid(f))
    } else {
        None
    }
}

/// Words i..j of a record, as a list of their own.
pub(crate) fn words_between(ws: &Vec<String>, i: usize, j: usize) -> (r: Vec<String>)
    requires
        i <= j <= ws@.len(),
    ensures
        text_of(r) == text_of(*ws).subrange(i as int, j as int),
{
    let mut r: Vec<String> = Vec::new();
    let mut m = i;
    while m < j
        invariant
            i <= m <= j,
            j <= ws@.len(),
            text_of(r) == text_of(*ws).subrange(i as int, m as int),
        decreases j - m,
    {
        let c = ws[m].clone();
        assert(c@ == ws@[m as int]@);
        let ghost prev = text_of(r);
        r.push(c);
        proof {
            assert(text_of(r) =~= prev.push(c@));
            assert(text_of(*ws).subrange(i as int, m + 1) =~= text_of(*ws).subrange(i as int, m as int).push(ws@[m as int]@));
        }
        m = m + 1;
    }
    r
}

/// The index of the last name in the table that equals `name`.
pub open spec fn find_last(names: Seq<Seq<char>>, name: Seq<char>) -> Option<nat>
    decreases names.len(),
{
    if names.len() == 0 {
        None
    } else if names.last() == name {
        Some((names.len() - 1) as nat)
    } else {
        find_last(names.drop_last(), name)
    }
}

/// The corners of a face: its vertex words read in order; the first that
/// cannot be read decides the error.
pub open spec fn corners(toks: Seq<Seq<char>>) -> Result<Seq<FaceVertex>, ErrorKind>
    decreases toks.len(),
{
    if toks.len() == 0 {
        Ok(Seq::empty())
    } else {
        match corners(toks.drop_last()) {
            Err(e) => Err(e),
            Ok(p) => match face_vertex_spec(toks.last()) {
                Err(e) => Err(e),
                Ok(f) => Ok(p.push(f)),
            },
        }
    }
}

/// The triangles of the fan of a face.
pub open spec fn fan(poly: Seq<FaceVertex>, mtl: usize) -> Seq<Triangle> {
    Seq::new((poly.len() - 2) as nat, |j: int| fan_triangle(poly, j, mtl))
}

/// The reader's state as text and indices: the records read so far, the
/// names of the registered materials (entry 0 is the default material, whose
/// name is empty), and the material that faces take.
pub struct ObjModel {
    pub positions: Seq<Seq<Seq<char>>>,
    pub normals: Seq<Seq<Seq<char>>>,
    pub texcoords: Seq<Seq<Seq<char>>>,
    pub triangles: Seq<Triangle>,
    pub names: Seq<Seq<char>>,
    pub current: Option<Seq<char>>,
}

/// The material entry that a face takes: the default one before any
/// `usemtl`, else the latest one registered under the current name.
pub open spec fn face_material(m: ObjModel) -> Option<nat> {
    match m.current {
        None => Some(0),
        Some(n) => find_last(m.names, n),
    }
}

pub open spec fn positions_in_range(poly: Seq<FaceVertex>, n: nat) -> bool {
    forall|k: int| 0 <= k < poly.len() ==> position_slot(#[trigger] poly[k]) < n
}

/// Every normal index that a face gives names one of the n normals.
pub open spec fn normals_in_range(poly: Seq<FaceVertex>, n: nat) -> bool {
    forall|k: int| 0 <= k < poly.len() ==> normal_slot(#[trigger] poly[k]) <= n
}

/// A face record `f a b c ...`.
pub open spec fn face_step(m: ObjModel, ws: Seq<Seq<char>>) -> Result<ObjModel, ErrorKind> {
    if ws.len() < 4 {
        Err(ErrorKind::TooFewVertices)
    } else {
        match corners(ws.subrange(1, ws.len() as int)) {
            Err(e) => Err(e),
            Ok(poly) => match face_material(m) {
                None => Err(ErrorKind::UnknownMaterial),
                Some(mtl) => if !positions_in_range(poly, m.positions.len()) {
                    Err(ErrorKind::VertexOutOfRange)
                } else if !normals_in_range(poly, m.normals.len()) {
                    Err(ErrorKind::NormalOutOfRange)
                } else {
                    Ok(ObjModel { triangles: m.triangles + fan(poly, mtl as usize), ..m })
                },
            },
        }
    }
}

/// What one line, given as its words, does to the reader's state; and the
/// material library that the caller must read and register, if any.
pub open spec fn obj_step(m: ObjModel, ws: Seq<Seq<char>>) -> Result<(ObjModel, Option<Seq<char>>), ErrorKind> {
    if ws.len() == 0 {
        Ok((m, None))
    } else if ws[0] == seq!['v'] {
        match triple_check(ws, Field::X, Field::Y, Field::Z) {
            Some(e) => Err(e),
            None => Ok((ObjModel { positions: m.positions.push(ws.subrange(1, 4)), ..m }, None)),
        }
    } else if ws[0] == seq!['v', 'n'] {
        match triple_check(ws, Field::X, Field::Y, Field::Z) {
            Some(e) => Err(e),
            None => Ok((ObjModel { normals: m.normals.push(ws.subrange(1, 4)), ..m }, None)),
        }
    } else if ws[0] == seq!['v', 't'] {
        match field_check(ws, 1, Field::U) {
            Some(e) => Err(e),
            None => match optional_check(ws, 2, Field::V) {
                Some(e) => Err(e),
                None => match optional_check(ws, 3, Field::W) {
                    Some(e) => Err(e),
                    None => {
                        let end = if ws.len() < 4 { ws.len() as int } else { 4 };
                        Ok((ObjModel { texcoords: m.texcoords.push(ws.subrange(1, end)), ..m }, None))
                    },
                },
            },
        }
    } else if ws[0] == seq!['m', 't', 'l', 'l', 'i', 'b'] {
        if ws.len() < 2 {
            Err(ErrorKind::Missing(Field::LibraryName))
        } else {
            Ok((m, Some(ws[1])))
        }
    } else if ws[0] == seq!['u', 's', 'e', 'm', 't', 'l'] {
        if ws.len() < 2 {
            Err(ErrorKind::Missing(Field::MaterialName))
        } else {
            Ok((ObjModel { current: Some(ws[1]), ..m }, None))
        }
    } else if ws[0] == seq!['f'] {
        match face_step(m, ws) {
            Err(e) => Err(e),
            Ok(m2) => Ok((m2, None)),
        }
    } else {
        Ok((m, None))
    }
}

/// The .obj reader.
pub struct ObjLoader {
    /// Vertex positions: three number literals each.
    pub positions: Vec<Vec<String>>,
    /// Normals: three number literals each.
    pub normals: Vec<Vec<String>>,
    /// Texture coordinates: one to three number literals (u, then v and w
    /// where given).
    pub texcoords: Vec<Vec<String>>,
    pub triangles: Vec<Triangle>,
    /// The material table: names and materials, entry 0 the default.
    pub material_names: Vec<String>,
    pub materials: Vec<MaterialSource>,
    /// The name of the last `usemtl`.
    pub current: Option<String>,
}

impl ObjLoader {
    pub open spec fn model(&self) -> ObjModel {
        ObjModel {
            positions: texts_of(self.positions@),
            normals: texts_of(self.normals@),
            texcoords: texts_of(self.texcoords@),
            triangles: self.triangles@,
            names: text_of(self.material_names),
            current: match self.current {
                Some(n) => Some(n@),
                None => None,
            },
        }
    }

    /// The table is well formed: one name per material, the default first;
    /// every triangle's vertices and material are in range.
    pub open spec fn wf(&self) -> bool {
        &&& self.material_names@.len() == self.materials@.len()
        &&& self.material_names@.len() >= 1
        &&& self.material_names@[0]@.len() == 0
        &&& forall|k: int, j: int|
            0 <= k < self.triangles@.len() && 0 <= j < 3 ==> #[trigger] self.triangles@[k].verts[j]
                < self.positions@.len()
        &&& forall|k: int, j: int|
            0 <= k < self.triangles@.len() && 0 <= j < 3 ==> #[trigger] self.triangles@[k].norms[j]
                <= self.normals@.len()
        &&& forall|k: int|
            0 <= k < self.triangles@.len() ==> #[trigger] self.triangles@[k].mtl
                < self.materials@.len()
    }

    /// A reader with no records and only the default material.
    pub fn new() -> (r: ObjLoader)
        ensures
            r.wf(),
            r.model().positions.len() == 0,
            r.model().normals.len() == 0,
            r.model().texcoords.len() == 0,
            r.model().triangles.len() == 0,
            r.model().names == seq![Seq::<char>::empty()],
            r.model().current is None,
            r.materials@.len() == 1,
            r.materials@[0].model() == crate::mtl::unset_model(),
    {
        let mut material_names: Vec<String> = Vec::new();
        material_names.push(String::new());
        let mut materials: Vec<MaterialSource> = Vec::new();
        materials.push(MaterialSource::unset());
        let r = ObjLoader {
            positions: Vec::new(),
            normals: Vec::new(),
            texcoords: Vec::new(),
            triangles: Vec::new(),
            material_names,
            materials,
            current: None,
        };
        assert(r.model().names =~= seq![Seq::<char>::empty()]);
        r
    }

    /// Registers a material under a name; later faces that use the name take
    /// this entry, earlier ones keep theirs.
    pub fn register_material(&mut self, name: String, m: MaterialSource)
        requires
            old(self).wf(),
        ensures
            final(self).wf(),
            final(self).model() == (ObjModel { names: old(self).model().names.push(name@), ..old(self).model() }),
            final(self).materials@ == old(self).materials@.push(m),
    {
        self.material_names.push(name);
        self.materials.push(m);
        proof {
            assert(self.model().names =~= old(self).model().names.push(name@));
        }
    }

    /// The index of the material entry that a face takes now.
    pub fn face_material_index(&self) -> (r: Option<usize>)
        requires
            self.wf(),
        ensures
            r == (match face_material(self.model()) {
                Some(k) => Some(k as usize),
                None => None,
            }),
            r is Some ==> r->0 < self.material_names@.len(),
    {
        match &self.current {
            None => Some(0),
            Some(name) => {
                let ghost names = self.model().names;
                let mut k = self.material_names.len();
                assert(names.subrange(0, k as int) =~= names);
                while k > 0
                    invariant
                        k <= self.material_names@.len(),
                        names == self.model().names,
                        self.model().current == Some(name@),
                        names.len() == self.material_names@.len(),
                        find_last(names, name@) == find_last(names.subrange(0, k as int), name@),
                    decreases k,
                {
                    let ghost pre = names.subrange(0, k as int);
                    assert(pre.last() == self.material_names@[k - 1]@);
                    if word_is(self.material_names[k - 1].as_str(), name.as_str()) {
                        assert(find_last(pre, name@) == Some((k - 1) as nat));
                        assert(face_material(self.model()) == Some((k - 1) as nat));
                        return Some(k - 1);
                    }
                    assert(pre.drop_last() =~= names.subrange(0, k - 1));
                    k = k - 1;
                }
                None
            },
        }
    }
}

proof fn lemma_corners_prefix_err(toks: Seq<Seq<char>>, k: int)
    requires
        0 <= k <= toks.len(),
        corners(toks.take(k)) is Err,
    ensures
        corners(toks) == corners(toks.take(k)),
    decreases toks.len() - k,
{
    if k == toks.len() {
        assert(toks.take(k) =~= toks);
    } else {
        assert(toks.drop_last().take(k) =~= toks.take(k));
        lemma_corners_prefix_err(toks.drop_last(), k);
    }
}

proof fn lemma_corners_len(toks: Seq<Seq<char>>)
    requires
        corners(toks) is Ok,
    ensures
        corners(toks)->Ok_0.len() == toks.len(),
        forall|k: int| 0 <= k < toks.len() ==> (#[trigger] corners(toks)->Ok_0[k]).v != 0,
    decreases toks.len(),
{
    if toks.len() > 0 {
        lemma_corners_len(toks.drop_last());
    }
}

/// Reads the vertex words of a face record (words 1 onwards).
fn read_corners(ws: &Vec<String>) -> (r: Result<Vec<FaceVertex>, ErrorKind>)
    requires
        ws@.len() >= 1,
    ensures
        match corners(text_of(*ws).subrange(1, ws@.len() as int)) {
            Ok(p) => {
                &&& r is Ok
                &&& r->Ok_0@ == p
                &&& p.len() == ws@.len() - 1
                &&& forall|k: int| 0 <= k < p.len() ==> (#[trigger] p[k]).v != 0
            },
            Err(e) => r == Err::<Vec<FaceVertex>, ErrorKind>(e),
        },
{
    let ghost wv = text_of(*ws);
    let ghost toks = wv.subrange(1, wv.len() as int);
    let mut poly: Vec<FaceVertex> = Vec::new();
    let mut j: usize = 1;
    assert(toks.take(0) =~= Seq::<Seq<char>>::empty());
    while j < ws.len()
        invariant
            1 <= j <= ws@.len(),
            wv == text_of(*ws),
            toks == wv.subrange(1, wv.len() as int),
            corners(toks.take(j - 1)) == Ok::<Seq<FaceVertex>, ErrorKind>(poly@),
        decreases ws@.len() - j,
    {
        assert(toks.take(j as int).drop_last() =~= toks.take(j - 1));
        assert(toks.take(j as int).last() == ws@[j as int]@);
        match parse_face_vertex(ws[j].as_str()) {
            Err(e) => {
                proof {
                    lemma_corners_prefix_err(toks, j as int);
                }
                return Err(e);
            },
            Ok(f) => {
                poly.push(f);
            },
        }
        j = j + 1;
    }
    assert(toks.take(toks.len() as int) =~= toks);
    proof {
        lemma_corners_len(toks);
    }
    Ok(poly)
}

fn all_in_range(poly: &Vec<FaceVertex>, n: usize) -> (r: bool)
    ensures
        r == positions_in_range(poly@, n as nat),
{
    let mut m: usize = 0;
    while m < poly.len()
        invariant
            m <= poly@.len(),
            forall|m2: int| 0 <= m2 < m ==> position_slot(#[trigger] poly@[m2]) < n,
        decreases poly@.len() - m,
    {
        let f = poly[m];
        if magnitude(f.v) > n {
            return false;
        }
        m = m + 1;
    }
    true
}

fn all_normals_in_range(poly: &Vec<FaceVertex>, n: usize) -> (r: bool)
    ensures
        r == normals_in_range(poly@, n as nat),
{
    let mut m: usize = 0;
    while m < poly.len()
        invariant
            m <= poly@.len(),
            forall|m2: int| 0 <= m2 < m ==> normal_slot(#[trigger] poly@[m2]) <= n,
        decreases poly@.len() - m,
    {
        let f = poly[m];
        if magnitude(f.vn) > n {
            return false;
        }
        m = m + 1;
    }
    true
}

impl ObjLoader {
    /// Reads a face record.
    fn feed_face(&mut self, ws: &Vec<String>) -> (r: Result<(), ErrorKind>)
        requires
            old(self).wf(),
            text_of(*ws).len() >= 1,
        ensures
            final(self).wf(),
            final(self).materials@ == old(self).materials@,
            match face_step(old(self).model(), text_of(*ws)) {
                Ok(m) => r is Ok && final(self).model() == m,
                Err(e) => r == Err::<(), ErrorKind>(e) && final(self).model() == old(self).model(),
            },
    {
        let ghost wv = text_of(*ws);
        if ws.len() < 4 {
            return Err(ErrorKind::TooFewVertices);
        }
        let poly = match read_corners(ws) {
            Err(e) => {
                return Err(e);
            },
            Ok(p) => p,
        };
        let mtl = match self.face_material_index() {
            None => {
                return Err(ErrorKind::UnknownMaterial);
            },
            Some(k) => k,
        };
        if !all_in_range(&poly, self.positions.len()) {
            return Err(ErrorKind::VertexOutOfRange);
        }
        if !all_normals_in_range(&poly, self.normals.len()) {
            return Err(ErrorKind::NormalOutOfRange);
        }
        let tris = triangulate(&poly, mtl);
        let ghost old_tris = self.triangles@;
        let mut t: usize = 0;
        while t < tris.len()
            invariant
                t <= tris@.len(),
                self.triangles@ == old_tris + tris@.take(t as int),
                self.positions@ == old(self).positions@,
                self.normals@ == old(self).normals@,
                self.texcoords@ == old(self).texcoords@,
                self.material_names@ == old(self).material_names@,
                self.materials@ == old(self).materials@,
                self.current == old(self).current,
                old_tris == old(self).triangles@,
                old(self).wf(),
                mtl < self.materials@.len(),
                tris@.len() == poly@.len() - 2,
                forall|j2: int| 0 <= j2 < tris@.len() ==> #[trigger] tris@[j2] == fan_triangle(poly@, j2, mtl),
                positions_in_range(poly@, self.positions@.len() as nat),
                normals_in_range(poly@, self.normals@.len() as nat),
                forall|m: int| 0 <= m < poly@.len() ==> (#[trigger] poly@[m]).v != 0,
                self.wf(),
            decreases tris@.len() - t,
        {
            let tri = tris[t];
            proof {
                assert(tri == fan_triangle(poly@, t as int, mtl));
                assert(position_slot(poly@[0]) < self.positions@.len());
                assert(position_slot(poly@[t + 1]) < self.positions@.len());
                assert(position_slot(poly@[t + 2]) < self.positions@.len());
                assert(normal_slot(poly@[0]) <= self.normals@.len());
                assert(normal_slot(poly@[t + 1]) <= self.normals@.len());
                assert(normal_slot(poly@[t + 2]) <= self.normals@.len());
            }
            self.triangles.push(tri);
            proof {
                assert(tris@.take(t + 1) =~= tris@.take(t as int).push(tri));
                assert(self.triangles@ =~= old_tris + tris@.take(t + 1));
            }
            t = t + 1;
        }
        proof {
            assert(tris@.take(tris@.len() as int) =~= tris@);
            assert(tris@ =~= fan(poly@, mtl));
        }
        Ok(())
    }

    /// Reads one line of a .obj file; `lineno` is its 1-based number. A
    /// `mtllib` line returns the library's name: the caller reads that file
    /// and registers its materials before the next line. On an error the
    /// reader is left as it was.
    pub fn feed_line(&mut self, line: &str, lineno: usize) -> (r: Result<Option<String>, LoadError>)
        requires
            old(self).wf(),
        ensures
            final(self).wf(),
            final(self).materials@ == old(self).materials@,
            match obj_step(old(self).model(), words(line@)) {
                Ok((m, lib)) => {
                    &&& r is Ok
                    &&& final(self).model() == m
                    &&& crate::mtl::opt_text(r->Ok_0) == lib
                },
                Err(k) => {
                    &&& r == Err::<Option<String>, LoadError>(LoadError { line: lineno, kind: k })
                    &&& final(self).model() == old(self).model()
                },
            },
    {
        let ws = split_words(line);
        let ghost wv = words(line@);
        proof {
            assert(text_of(ws) =~= wv);
            reveal_strlit("v");
            reveal_strlit("vn");
            reveal_strlit("vt");
            reveal_strlit("mtllib");
            reveal_strlit("usemtl");
            reveal_strlit("f");
            assert("v"@ =~= seq!['v']);
            assert("vn"@ =~= seq!['v', 'n']);
            assert("vt"@ =~= seq!['v', 't']);
            assert("mtllib"@ =~= seq!['m', 't', 'l', 'l', 'i', 'b']);
            assert("usemtl"@ =~= seq!['u', 's', 'e', 'm', 't', 'l']);
            assert("f"@ =~= seq!['f']);
        }
        if ws.len() == 0 {
            return Ok(None);
        }
        let kind = ws[0].as_str();
        assert(kind@ == wv[0]);
        if word_is(kind, "v") || word_is(kind, "vn") {
            let is_position = word_is(kind, "v");
            match check_triple(&ws, Field::X, Field::Y, Field::Z) {
                Some(e) => Err(LoadError { line: lineno, kind: e }),
                None => {
                    let p = words_between(&ws, 1, 4);
                    if is_position {
                        self.positions.push(p);
                        proof {
                            assert(texts_of(self.positions@) =~= texts_of(old(self).positions@).push(wv.subrange(1, 4)));
                        }
                    } else {
                        self.normals.push(p);
                        proof {
                            assert(texts_of(self.normals@) =~= texts_of(old(self).normals@).push(wv.subrange(1, 4)));
                        }
                    }
                    Ok(None)
                },
            }
        } else if word_is(kind, "vt") {
            match check_number(&ws, 1, Field::U) {
                Some(e) => Err(LoadError { line: lineno, kind: e }),
                None => match check_optional(&ws, 2, Field::V) {
                    Some(e) => Err(LoadError { line: lineno, kind: e }),
                    None => match check_optional(&ws, 3, Field::W) {
                        Some(e) => Err(LoadError { line: lineno, kind: e }),
                        None => {
                            let end = if ws.len() < 4 {
                                ws.len()
                            } else {
                                4
                            };
                            let p = words_between(&ws, 1, end);
                            self.texcoords.push(p);
                            proof {
                                assert(texts_of(self.texcoords@) =~= texts_of(old(self).texcoords@).push(wv.subrange(1, end as int)));
                            }
                            Ok(None)
                        },
                    },
                },
            }
        } else if word_is(kind, "mtllib") {
            if ws.len() < 2 {
                Err(LoadError { line: lineno, kind: ErrorKind::Missing(Field::LibraryName) })
            } else {
                let name = ws[1].clone();
                Ok(Some(name))
            }
        } else if word_is(kind, "usemtl") {
            if ws.len() < 2 {
                Err(LoadError { line: lineno, kind: ErrorKind::Missing(Field::MaterialName) })
            } else {
                let name = ws[1].clone();
                self.current = Some(name);
                Ok(None)
            }
        } else if word_is(kind, "f") {
            match self.feed_face(&ws) {
                Err(e) => Err(LoadError { line: lineno, kind: e }),
                Ok(()) => Ok(None),
            }
        } else {
            Ok(None)
        }
    }
}

/// One step of reading a .obj file: a line, given as its words, or the
/// registration of a material under a name (what the caller does for each
/// material of a library that a `mtllib` line names).
pub enum ObjEvent {
    Line(Seq<Seq<char>>),
    Register(Seq<char>),
}

pub open spec fn event_step(m: ObjModel, e: ObjEvent) -> Result<ObjModel, ErrorKind> {
    match e {
        ObjEvent::Line(ws) => match obj_step(m, ws) {
            Err(k) => Err(k),
            Ok((m2, _)) => Ok(m2),
        },
        ObjEvent::Register(n) => Ok(ObjModel { names: m.names.push(n), ..m }),
    }
}

/// The reader's state after a run of events; the first error stops the run.
pub open spec fn run_events(m: ObjModel, evs: Seq<ObjEvent>) -> Result<ObjModel, ErrorKind>
    decreases evs.len(),
{
    if evs.len() == 0 {
        Ok(m)
    } else {
        match run_events(m, evs.drop_last()) {
            Err(k) => Err(k),
            Ok(m1) => event_step(m1, evs.last()),
        }
    }
}

pub open spec fn is_usemtl(ws: Seq<Seq<char>>) -> bool {
    ws.len() > 0 && ws[0] == seq!['u', 's', 'e', 'm', 't', 'l']
}

pub open spec fn is_face_line(e: ObjEvent) -> bool {
    match e {
        ObjEvent::Line(ws) => ws.len() > 0 && ws[0] == seq!['f'],
        ObjEvent::Register(_) => false,
    }
}

pub open spec fn is_usemtl_line(e: ObjEvent) -> bool {
    match e {
        ObjEvent::Line(ws) => is_usemtl(ws),
        ObjEvent::Register(_) => false,
    }
}

/// The `usemtl` lines of the run all name nm.
pub open spec fn only_uses(evs: Seq<ObjEvent>, nm: Seq<char>) -> bool {
    forall|j: int|
        0 <= j < evs.len() && #[trigger] is_usemtl_line(evs[j]) ==> evs[j]->Line_0.len() >= 2
            && evs[j]->Line_0[1] == nm
}

/// Every face of the run comes under nm: nm is current at the start, or a
/// `usemtl` line comes before the face.
pub open spec fn faces_under(m: ObjModel, evs: Seq<ObjEvent>, nm: Seq<char>) -> bool {
    forall|j: int|
        0 <= j < evs.len() && #[trigger] is_face_line(evs[j]) ==> m.current == Some(nm) || exists|j2: int|
            0 <= j2 < j && #[trigger] is_usemtl_line(evs[j2])
}

/// No material named nm is registered after the first face of the run.
pub open spec fn not_redefined_after_faces(evs: Seq<ObjEvent>, nm: Seq<char>) -> bool {
    forall|j1: int, j2: int|
        0 <= j1 < j2 < evs.len() && #[trigger] is_face_line(evs[j1]) ==> #[trigger] evs[j2]
            != ObjEvent::Register(nm)
}

proof fn lemma_find_last_other(names: Seq<Seq<char>>, n: Seq<char>, nm: Seq<char>)
    requires
        n != nm,
    ensures
        find_last(names.push(n), nm) == find_last(names, nm),
{
    assert(names.push(n).drop_last() =~= names);
}

/// Faces read under one material name share one material entry: over a run
/// of lines and registrations in which every `usemtl` names nm, every face
/// comes under nm, and nm is not registered again once faces have been read,
/// every triangle the run adds refers to the same entry of the material
/// table: the last one registered under nm.
pub proof fn lemma_material_sharing(m: ObjModel, evs: Seq<ObjEvent>, nm: Seq<char>)
    requires
        run_events(m, evs) is Ok,
        only_uses(evs, nm),
        faces_under(m, evs, nm),
        not_redefined_after_faces(evs, nm),
    ensures
        ({
            let m2 = run_events(m, evs)->Ok_0;
            &&& m2.triangles.len() >= m.triangles.len()
            &&& m2.triangles.subrange(0, m.triangles.len() as int) == m.triangles
            &&& m2.triangles.len() > m.triangles.len() ==> find_last(m2.names, nm) is Some
            &&& forall|k: int|
                m.triangles.len() <= k < m2.triangles.len() ==> (#[trigger] m2.triangles[k]).mtl
                    == find_last(m2.names, nm)->0 as usize
            &&& m2.current == Some(nm) || (m2.current == m.current && forall|j: int|
                0 <= j < evs.len() ==> !#[trigger] is_usemtl_line(evs[j]))
            &&& m2.triangles.len() > m.triangles.len() ==> exists|j: int|
                0 <= j < evs.len() && #[trigger] is_face_line(evs[j])
        }),
    decreases evs.len(),
{
    if evs.len() == 0 {
        assert(m.triangles.subrange(0, m.triangles.len() as int) =~= m.triangles);
    } else {
        let pre = evs.drop_last();
        let last = (evs.len() - 1) as int;
        let e = evs[last];
        assert forall|j: int| 0 <= j < pre.len() implies pre[j] == evs[j] by {}
        assert(only_uses(pre, nm)) by {
            assert forall|j: int| 0 <= j < pre.len() && #[trigger] is_usemtl_line(pre[j]) implies pre[j]->Line_0.len() >= 2
                && pre[j]->Line_0[1] == nm by {
                assert(pre[j] == evs[j]);
            }
        }
        assert(faces_under(m, pre, nm)) by {
            assert forall|j: int| 0 <= j < pre.len() && #[trigger] is_face_line(pre[j]) implies m.current == Some(nm) || exists|j2: int|
                0 <= j2 < j && #[trigger] is_usemtl_line(pre[j2]) by {
                assert(pre[j] == evs[j]);
                if m.current != Some(nm) {
                    let j2 = choose|j2: int| 0 <= j2 < j && #[trigger] is_usemtl_line(evs[j2]);
                    assert(pre[j2] == evs[j2]);
                }
            }
        }
        assert(not_redefined_after_faces(pre, nm)) by {
            assert forall|j1: int, j2: int| 0 <= j1 < j2 < pre.len() && #[trigger] is_face_line(pre[j1]) implies #[trigger] pre[j2]
                != ObjEvent::Register(nm) by {
                assert(pre[j1] == evs[j1] && pre[j2] == evs[j2]);
            }
        }
        lemma_material_sharing(m, pre, nm);
        let m1 = run_events(m, pre)->Ok_0;
        let m2 = run_events(m, evs)->Ok_0;
        assert(m2 == event_step(m1, e)->Ok_0);
        let added_before = m1.triangles.len() > m.triangles.len();
        if added_before {
            let jf = choose|j: int| 0 <= j < pre.len() && #[trigger] is_face_line(pre[j]);
            assert(evs[jf] == pre[jf]);
            assert(is_face_line(evs[jf]));
        }
        match e {
            ObjEvent::Register(n) => {
                if added_before {
                    let jf = choose|j: int| 0 <= j < pre.len() && #[trigger] is_face_line(pre[j]);
                    assert(is_face_line(evs[jf]));
                    assert(evs[last] != ObjEvent::Register(nm));
                    lemma_find_last_other(m1.names, n, nm);
                }
                if m2.triangles.len() > m.triangles.len() {
                    let jf = choose|j: int| 0 <= j < pre.len() && #[trigger] is_face_line(pre[j]);
                    assert(is_face_line(evs[jf]));
                }
                assert forall|j: int| 0 <= j < evs.len() && m2.current != Some(nm) implies !#[trigger] is_usemtl_line(evs[j]) by {
                    if j < pre.len() {
                        assert(pre[j] == evs[j]);
                    }
                }
            },
            ObjEvent::Line(ws) => {
                if is_usemtl(ws) {
                    assert(is_usemtl_line(evs[last]));
                    assert(m2.current == Some(nm));
                    assert(m2.triangles == m1.triangles && m2.names == m1.names);
                    if m2.triangles.len() > m.triangles.len() {
                        let jf = choose|j: int| 0 <= j < pre.len() && #[trigger] is_face_line(pre[j]);
                        assert(is_face_line(evs[jf]));
                    }
                } else if ws.len() > 0 && ws[0] == seq!['f'] && !(ws[0] == seq!['v']) && !(ws[0]
                    == seq!['v', 'n']) && !(ws[0] == seq!['v', 't']) && !(ws[0] == seq![
                    'm',
                    't',
                    'l',
                    'l',
                    'i',
                    'b',
                ]) {
                    assert(is_face_line(evs[last]));
                    if m1.current != Some(nm) {
                        assert(m.current == m1.current);
                        let j2 = choose|j2: int| 0 <= j2 < last && #[trigger] is_usemtl_line(evs[j2]);
                        assert(pre[j2] == evs[j2]);
                        assert(!is_usemtl_line(pre[j2]));
                    }
                    assert(m1.current == Some(nm));
                    let poly = corners(ws.subrange(1, ws.len() as int))->Ok_0;
                    let mtl = face_material(m1)->0 as usize;
                    assert(m2.triangles == m1.triangles + fan(poly, mtl));
                    assert(m2.names == m1.names);
                    assert forall|k: int| m.triangles.len() <= k < m2.triangles.len() implies (#[trigger] m2.triangles[k]).mtl
                        == find_last(m2.names, nm)->0 as usize by {
                        if k >= m1.triangles.len() {
                            assert(m2.triangles[k] == fan(poly, mtl)[k - m1.triangles.len()]);
                        } else {
                            assert(m2.triangles[k] == m1.triangles[k]);
                        }
                    }
                    assert(m2.triangles.subrange(0, m.triangles.len() as int) =~= m1.triangles.subrange(
                        0,
                        m.triangles.len() as int,
                    ));
                    assert(m2.current == Some(nm));
                } else {
                    assert(m2.triangles == m1.triangles && m2.names == m1.names && m2.current == m1.current);
                    assert(!is_usemtl_line(evs[last]));
                    assert forall|j: int| 0 <= j < evs.len() && m2.current != Some(nm) implies !#[trigger] is_usemtl_line(evs[j]) by {
                        if j < pre.len() {
                            assert(pre[j] == evs[j]);
                        }
                    }
                    if m2.triangles.len() > m.triangles.len() {
                        let jf = choose|j: int| 0 <= j < pre.len() && #[trigger] is_face_line(pre[j]);
                        assert(is_face_line(evs[jf]));
                    }
                }
            },
        }
    }
}

} // verus!


