use vstd::prelude::*;

verus! {

/// How the vertices of a mesh primitive are assembled.
#[derive(Clone, Copy, PartialEq, Eq, Structural, Debug)]
pub enum PrimitiveMode {
    Points,
    Lines,
    LineLoop,
    LineStrip,
    Triangles,
    TriangleStrip,
    TriangleFan,
}

/// What a mesh primitive of a scene file holds: its mode and which of its
/// vertex attributes and indices are present.
#[derive(Clone, Copy, PartialEq, Eq, Structural, Debug)]
pub struct PrimitiveLayout {
    pub mode: PrimitiveMode,
    pub has_positions: bool,
    pub has_indices: bool,
    pub has_tex_coords: bool,
    pub has_normals: bool,
    pub has_tangents: bool,
}

/// Why a mesh primitive cannot be drawn.
#[derive(Clone, Copy, PartialEq, Eq, Structural, Debug)]
pub enum PrimitiveError {
    NotTriangles,
    NoPositions,
    NoIndices,
    NoTexCoords,
    NoNormals,
}

impl PrimitiveError {
    pub fn message(&self) -> (s: &'static str)
        ensures
            *self == PrimitiveError::NotTriangles ==> s@
                == "glTF primitive mode is not TRIANGLES, only TRIANGLES is supported"@,
            *self == PrimitiveError::NoPositions ==> s@ == "glTF positions accessor does not exist!"@,
            *self == PrimitiveError::NoIndices ==> s@ == "glTF indices accessor does not exist!"@,
            *self == PrimitiveError::NoTexCoords ==> s@ == "glTF texture coordinates 0 accessor does not exist!"@,
            *self == PrimitiveError::NoNormals ==> s@ == "glTF normals accessor does not exist!"@,
    {
        match self {
            PrimitiveError::NotTriangles => "glTF primitive mode is not TRIANGLES, only TRIANGLES is supported",
            PrimitiveError::NoPositions => "glTF positions accessor does not exist!",
            PrimitiveError::NoIndices => "glTF indices accessor does not exist!",
            PrimitiveError::NoTexCoords => "glTF texture coordinates 0 accessor does not exist!",
            PrimitiveError::NoNormals => "glTF normals accessor does not exist!",
        }
    }
}

/// The first check that `p` fails, in the order: mode, positions, indices,
/// texture coordinates, normals; `None` where it passes them all.
pub open spec fn first_failure(p: PrimitiveLayout) -> Option<PrimitiveError> {
    if p.mode != PrimitiveMode::Triangles {
        Some(PrimitiveError::NotTriangles)
    } else if !p.has_positions {
        Some(PrimitiveError::NoPositions)
    } else if !p.has_indices {
        Some(PrimitiveError::NoIndices)
    } else if !p.has_tex_coords {
        Some(PrimitiveError::NoTexCoords)
    } else if !p.has_normals {
        Some(PrimitiveError::NoNormals)
    } else {
        None
    }
}

/// Checks that a primitive can be drawn: it is made of triangles and has
/// positions, indices, texture coordinates and normals; tangents may be
/// missing. On success, whether it has tangents.
pub fn check_primitive(p: &PrimitiveLayout) -> (r: Result<bool, PrimitiveError>)
    ensures
        r is Err <==> first_failure(*p) is Some,
        r matches Err(e) ==> first_failure(*p) == Some(e),
        r matches Ok(has_tangents) ==> has_tangents == p.has_tangents,
{
    if p.mode != PrimitiveMode::Triangles {
        return Err(PrimitiveError::NotTriangles);
    }
    if !p.has_positions {
        return Err(PrimitiveError::NoPositions);
    }
    if !p.has_indices {
        return Err(PrimitiveError::NoIndices);
    }
    if !p.has_tex_coords {
        return Err(PrimitiveError::NoTexCoords);
    }
    if !p.has_normals {
        return Err(PrimitiveError::NoNormals);
    }
    Ok(p.has_tangents)
}

/// A mesh primitive of a scene file as the draws are chosen from it: the
/// node it belongs to, its layout, its number of indices, and the bindless
/// indices of the images of its base colour, metallic-roughness and normal
/// textures, where it has them.
#[derive(Clone, Copy, PartialEq, Eq, Structural, Debug)]
pub struct PrimitiveSource {
    pub node: usize,
    pub layout: PrimitiveLayout,
    pub index_count: u32,
    pub base_color_texture: Option<u32>,
    pub metallic_roughness_texture: Option<u32>,
    pub normal_texture: Option<u32>,
}

/// What is drawn of a primitive: its node, its number of indices, the
/// bindless indices of its three textures, and whether it has tangents.
#[derive(Clone, Copy, PartialEq, Eq, Structural, Debug)]
pub struct MeshDrawPlan {
    pub node: usize,
    pub index_count: u32,
    pub diffuse_texture: u32,
    pub omr_texture: u32,
    pub normal_texture: u32,
    pub has_tangents: bool,
}

/// Whether a primitive that passes the checks is drawn: only with both a
/// base colour and a metallic-roughness texture.
pub open spec fn is_drawn(p: PrimitiveSource) -> bool {
    p.base_color_texture is Some && p.metallic_roughness_texture is Some
}

pub open spec fn draw_of(p: PrimitiveSource) -> MeshDrawPlan {
    MeshDrawPlan {
        node: p.node,
        index_count: p.index_count,
        diffuse_texture: p.base_color_texture->0,
        omr_texture: p.metallic_roughness_texture->0,
        normal_texture: p.normal_texture->0,
        has_tangents: p.layout.has_tangents,
    }
}

/// The first check failed among `prims`, in order.
pub open spec fn first_error(prims: Seq<PrimitiveSource>) -> Option<PrimitiveError>
    decreases prims.len(),
{
    if prims.len() == 0 {
        None
    } else if first_error(prims.drop_last()) is Some {
        first_error(prims.drop_last())
    } else {
        first_failure(prims.last().layout)
    }
}

/// The draws of `prims`, in order: one for each primitive that is drawn.
pub open spec fn draws_of(prims: Seq<PrimitiveSource>) -> Seq<MeshDrawPlan>
    decreases prims.len(),
{
    if prims.len() == 0 {
        Seq::empty()
    } else if is_drawn(prims.last()) {
        draws_of(prims.drop_last()).push(draw_of(prims.last()))
    } else {
        draws_of(prims.drop_last())
    }
}

/// Every primitive that would be drawn before the first failed check has a
/// normal texture.
pub open spec fn normals_present(prims: Seq<PrimitiveSource>) -> bool {
    forall|k: int|
        0 <= k < prims.len() && first_error(prims.take(k + 1)) is None && is_drawn(#[trigger] prims[k])
            ==> prims[k].normal_texture is Some
}

/// Chooses the draws of a scene's primitives, given in the order their
/// nodes are visited: the first primitive that fails a check fails the
/// whole; otherwise each primitive with a base colour and a
/// metallic-roughness texture is drawn, and the others are skipped.
pub fn select_mesh_draws(prims: &[PrimitiveSource]) -> (r: Result<Vec<MeshDrawPlan>, PrimitiveError>)
    requires
        normals_present(prims@),
    ensures
        r is Err <==> first_error(prims@) is Some,
        r matches Err(e) ==> first_error(prims@) == Some(e),
        r matches Ok(draws) ==> draws@ == draws_of(prims@),
{
    let mut draws: Vec<MeshDrawPlan> = Vec::new();
    let mut i: usize = 0;
    proof {
        assert(prims@.take(0) =~= Seq::<PrimitiveSource>::empty());
    }
    while i < prims.len()
        invariant
            i <= prims@.len(),
            normals_present(prims@),
            first_error(prims@.take(i as int)) is None,
            draws@ == draws_of(prims@.take(i as int)),
        decreases prims@.len() - i,
    {
        let p = prims[i];
        proof {
            assert(prims@.take(i + 1).drop_last() =~= prims@.take(i as int));
            assert(prims@.take(i + 1).last() == p);
        }
        match check_primitive(&p.layout) {
            Err(e) => {
                proof {
                    lemma_first_error_stays(prims@, i as int + 1);
                }
                return Err(e);
            },
            Ok(has_tangents) => {
                match (p.base_color_texture, p.metallic_roughness_texture) {
                    (Some(diffuse), Some(omr)) => {
                        proof {
                            assert(prims@[i as int] == p);
                        }
                        let normal = match p.normal_texture {
                            Some(n) => n,
                            None => {
                                proof {
                                    assert(false);
                                }
                                0
                            },
                        };
                        draws.push(
                            MeshDrawPlan {
                                node: p.node,
                                index_count: p.index_count,
                                diffuse_texture: diffuse,
                                omr_texture: omr,
                                normal_texture: normal,
                                has_tangents,
                            },
                        );
                    },
                    _ => {},
                }
            },
        }
        i = i + 1;
    }
    proof {
        assert(prims@.take(i as int) =~= prims@);
    }
    Ok(draws)
}

/// Once a prefix has failed a check, every longer prefix fails with it.
proof fn lemma_first_error_stays(prims: Seq<PrimitiveSource>, n: int)
    requires
        0 < n <= prims.len(),
        first_error(prims.take(n)) is Some,
    ensures
        first_error(prims) == first_error(prims.take(n)),
    decreases prims.len() - n,
{
    if n < prims.len() {
        assert(prims.take(n + 1).drop_last() =~= prims.take(n));
        lemma_first_error_stays(prims, n + 1);
    } else {
        assert(prims.take(n) =~= prims);
    }
}

/// Each draw comes from a primitive with both a base colour and a
/// metallic-roughness texture, and carries that primitive's node, number of
/// indices, textures, and whether it has tangents; each such primitive
/// gets a draw.
pub proof fn lemma_draws_follow_primitives(prims: Seq<PrimitiveSource>)
    ensures
        draws_of(prims).len() <= prims.len(),
        forall|k: int|
            0 <= k < draws_of(prims).len() ==> exists|j: int|
                0 <= j < prims.len() && draw_comes_from(#[trigger] draws_of(prims)[k], prims[j]),
        forall|j: int|
            0 <= j < prims.len() && (#[trigger] prims[j]).base_color_texture is Some
                && prims[j].metallic_roughness_texture is Some ==> exists|k: int|
                0 <= k < draws_of(prims).len() && draw_comes_from(draws_of(prims)[k], prims[j]),
    decreases prims.len(),
{
    if prims.len() > 0 {
        let rest = prims.drop_last();
        lemma_draws_follow_primitives(rest);
        let d0 = draws_of(rest);
        let d = draws_of(prims);
        let p = prims.last();
        assert forall|k: int| 0 <= k < d0.len() implies #[trigger] d[k] == d0[k] by {}
        assert forall|k: int| 0 <= k < d.len() implies exists|j: int|
            0 <= j < prims.len() && draw_comes_from(#[trigger] d[k], prims[j]) by {
            if k < d0.len() {
                let j = choose|j: int| 0 <= j < rest.len() && draw_comes_from(d0[k], rest[j]);
                assert(prims[j] == rest[j]);
            } else {
                assert(draw_comes_from(d[k], prims[prims.len() - 1]));
            }
        }
        assert forall|j: int|
            0 <= j < prims.len() && (#[trigger] prims[j]).base_color_texture is Some
                && prims[j].metallic_roughness_texture is Some implies exists|k: int|
                0 <= k < d.len() && draw_comes_from(d[k], prims[j]) by {
            if j < rest.len() {
                assert(rest[j] == prims[j]);
                let k = choose|k: int| 0 <= k < d0.len() && draw_comes_from(d0[k], rest[j]);
                assert(d[k] == d0[k]);
            } else {
                assert(draw_comes_from(d[d0.len() as int], prims[j]));
            }
        }
    }
}

/// Draw `d` is that of primitive `p`: the primitive has the base colour and
/// metallic-roughness textures the draw uses, and the draw carries its
/// node, number of indices, normal texture and tangent flag.
pub open spec fn draw_comes_from(d: MeshDrawPlan, p: PrimitiveSource) -> bool {
    &&& p.base_color_texture == Some(d.diffuse_texture)
    &&& p.metallic_roughness_texture == Some(d.omr_texture)
    &&& p.normal_texture is Some ==> p.normal_texture == Some(d.normal_texture)
    &&& d.node == p.node
    &&& d.index_count == p.index_count
    &&& d.has_tangents == p.layout.has_tangents
}

} // verus!
