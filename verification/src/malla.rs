//! An indexed triangle mesh: a list of vertices and a list of faces into it.

use vstd::prelude::*;
use crate::geometria::{caras_en_rango, indices_validos, Cara};
use crate::obj::ParseError;

verus! {

/// A mesh over vertices of type `V`. Neither its vertex list nor its face list is
/// ever empty, every index of every face names one of its vertices, and nothing
/// changes once the mesh is built.
pub struct Malla<V> {
    vertices: Vec<V>,
    caras: Vec<Cara>,
}

impl<V> Malla<V> {
    #[verifier::type_invariant]
    spec fn inv(&self) -> bool {
        &&& self.vertices@.len() > 0
        &&& self.caras@.len() > 0
        &&& caras_en_rango(self.caras@, self.vertices@.len() as int)
    }

    /// The vertices of the mesh, in the order in which they were given.
    pub closed spec fn spec_vertices(&self) -> Seq<V> {
        self.vertices@
    }

    /// The faces of the mesh, in the order in which they were given.
    pub closed spec fn spec_caras(&self) -> Seq<Cara> {
        self.caras@
    }

    /// Builds a mesh from its vertices and faces.
    ///
    /// A mesh without vertices or without faces is refused as empty. Otherwise a
    /// face with an index that names none of the vertices is refused as invalid.
    pub fn nueva(vertices: Vec<V>, caras: Vec<Cara>) -> (r: Result<Self, ParseError>)
        ensures
            match r {
                Ok(m) => {
                    &&& vertices@.len() > 0
                    &&& caras@.len() > 0
                    &&& caras_en_rango(caras@, vertices@.len() as int)
                    &&& m.spec_vertices() == vertices@
                    &&& m.spec_caras() == caras@
                },
                Err(e) => if vertices@.len() == 0 || caras@.len() == 0 {
                    e == ParseError::EmptyMesh
                } else {
                    e == ParseError::InvalidFaceIndex && !caras_en_rango(
                        caras@,
                        vertices@.len() as int,
                    )
                },
            },
    {
        if vertices.len() == 0 || caras.len() == 0 {
            Err(ParseError::EmptyMesh)
        } else if !indices_validos(caras.as_slice(), vertices.len()) {
            Err(ParseError::InvalidFaceIndex)
        } else {
            Ok(Malla { vertices, caras })
        }
    }

    /// The vertices of the mesh: at least one.
    pub fn vertices(&self) -> (v: &Vec<V>)
        ensures
            v@ == self.spec_vertices(),
            v@.len() > 0,
    {
        proof {
            use_type_invariant(self);
        }
        &self.vertices
    }

    /// The faces of the mesh: at least one, each within the vertices of the mesh.
    pub fn caras(&self) -> (c: &Vec<Cara>)
        ensures
            c@ == self.spec_caras(),
            c@.len() > 0,
            caras_en_rango(c@, self.spec_vertices().len() as int),
    {
        proof {
            use_type_invariant(self);
        }
        &self.caras
    }
}

} // verus!
