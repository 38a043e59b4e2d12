use geo_proc::components::connected_component_with_limit;
use geo_proc::editing::Error;
use geo_proc::ids::{FaceID, HalfEdgeID, VertexID};
use geo_proc::mesh::Mesh;

fn create_single_face() -> Mesh {
    Mesh::new_with_connectivity(&vec![0, 1, 2], 3)
}

fn create_two_connected_faces() -> Mesh {
    Mesh::new_with_connectivity(&vec![0, 2, 3, 0, 3, 1], 4)
}

fn create_plane() -> Mesh {
    Mesh::new_with_connectivity(&vec![0, 2, 1, 0, 3, 2], 4)
}

/// Every half-edge has a twin whose twin is itself, and three `next` steps
/// close every face loop.
fn check_invariants(mesh: &Mesh) {
    assert!(mesh.is_valid());
    for h in mesh.halfedge_iter() {
        let w = mesh.walker_from_halfedge(&h);
        let twin = w.twin_id().unwrap();
        assert_ne!(twin, h);
        assert_eq!(mesh.walker_from_halfedge(&twin).twin_id(), Some(h));
        assert!(w.vertex_id().is_some());
        if let Some(face) = w.face_id() {
            assert_eq!(w.into_next().face_id(), Some(face));
            assert_eq!(w.into_next().into_next().into_next().halfedge_id(), Some(h));
            assert_ne!(mesh.walker_from_halfedge(&twin).face_id(), Some(face));
        }
    }
    for f in mesh.face_iter() {
        assert_eq!(mesh.walker_from_face(&f).face_id(), Some(f));
    }
}

#[test]
fn test_split_edge_on_boundary() {
    let mut mesh = create_single_face();
    for halfedge_id in mesh.halfedge_iter() {
        if mesh.walker_from_halfedge(&halfedge_id).face_id().is_some() {
            mesh.split_edge(&halfedge_id);

            assert_eq!(mesh.no_vertices(), 4);
            assert_eq!(mesh.no_halfedges(), 2 * 3 + 4);
            assert_eq!(mesh.no_faces(), 2);

            let mut walker = mesh.walker_from_halfedge(&halfedge_id);
            assert!(walker.halfedge_id().is_some());
            assert!(walker.face_id().is_some());
            assert!(walker.vertex_id().is_some());

            walker.as_twin();
            assert!(walker.halfedge_id().is_some());
            assert!(walker.face_id().is_none());
            assert!(walker.vertex_id().is_some());

            walker.as_twin().as_next().as_twin();
            assert!(walker.halfedge_id().is_some());
            assert!(walker.face_id().is_some());
            assert!(walker.vertex_id().is_some());

            walker.as_next().as_next().as_twin();
            assert!(walker.halfedge_id().is_some());
            assert!(walker.face_id().is_none());
            assert!(walker.vertex_id().is_some());

            check_invariants(&mesh);

            break;
        }
    }
}

#[test]
fn test_split_edge() {
    let mut mesh = create_two_connected_faces();
    for halfedge_id in mesh.halfedge_iter() {
        let mut walker = mesh.walker_from_halfedge(&halfedge_id);
        if walker.face_id().is_some() && walker.as_twin().face_id().is_some() {
            let vertex_id = mesh.split_edge(&halfedge_id);
            assert_eq!(mesh.no_vertices(), 5);
            assert_eq!(mesh.no_halfedges(), 4 * 3 + 4);
            assert_eq!(mesh.no_faces(), 4);

            let mut w = mesh.walker_from_vertex(&vertex_id);
            let start_halfedge_id = w.halfedge_id();
            let mut end_halfedge_id = w.twin_id();
            for _ in 0..4 {
                assert!(w.halfedge_id().is_some());
                assert!(w.twin_id().is_some());
                assert!(w.vertex_id().is_some());
                assert!(w.face_id().is_some());
                w.as_previous().as_twin();
                end_halfedge_id = w.halfedge_id();
            }
            assert_eq!(start_halfedge_id, end_halfedge_id, "Did not go the full round");

            check_invariants(&mesh);
            break;
        }
    }
}

#[test]
fn test_split_face() {
    let mut mesh = create_single_face();
    let face_id = mesh.face_iter()[0];

    let vertex_id = mesh.split_face(&face_id);

    assert_eq!(mesh.no_vertices(), 4);
    assert_eq!(mesh.no_halfedges(), 3 * 3 + 3);
    assert_eq!(mesh.no_faces(), 3);

    let mut walker = mesh.walker_from_vertex(&vertex_id);
    let start_edge = walker.halfedge_id().unwrap();
    let one_round_edge = walker.as_previous().as_twin().as_previous().as_twin().as_previous().as_twin().halfedge_id().unwrap();
    assert_eq!(start_edge, one_round_edge);

    assert!(walker.face_id().is_some());
    walker.as_next().as_twin();
    assert!(walker.face_id().is_none());

    walker.as_twin().as_next().as_twin().as_next().as_twin();
    assert!(walker.face_id().is_none());

    walker.as_twin().as_next().as_twin().as_next().as_twin();
    assert!(walker.face_id().is_none());

    check_invariants(&mesh);
}

#[test]
fn test_flip_edge() {
    let mut mesh = create_plane();
    for halfedge_id in mesh.halfedge_iter() {
        let walker = mesh.walker_from_halfedge(&halfedge_id);
        let on_boundary = walker.face_id().is_none() || walker.into_twin().face_id().is_none();
        if !on_boundary {
            let (v0, v1) = mesh.ordered_edge_vertices(&halfedge_id);
            mesh.flip_edge(&halfedge_id).unwrap();
            let (v2, v3) = mesh.ordered_edge_vertices(&halfedge_id);
            assert_ne!(v0, v2);
            assert_ne!(v1, v2);
            assert_ne!(v0, v3);
            assert_ne!(v1, v3);

            check_invariants(&mesh);
        }
    }
}

#[test]
fn flip_on_boundary_is_refused_and_changes_nothing() {
    let mut mesh = create_single_face();
    let before = mesh.indices_buffer();
    let result = mesh.flip_edge(&HalfEdgeID::new(0));
    assert!(matches!(result, Err(Error::CannotFlipEdgeOnBoundary { .. })));
    let result = mesh.flip_edge(&HalfEdgeID::new(3));
    assert!(matches!(result, Err(Error::CannotFlipEdgeOnBoundary { .. })));
    assert_eq!(mesh.indices_buffer(), before);
    assert_eq!(mesh.no_halfedges(), 6);
}

#[test]
fn flip_turns_the_diagonal_of_a_square() {
    let mut mesh = create_plane();
    let h = mesh.connecting_edge(&VertexID::new(0), &VertexID::new(2)).unwrap();
    mesh.flip_edge(&h).unwrap();
    let (a, b) = mesh.ordered_edge_vertices(&h);
    assert_eq!((a.val(), b.val()), (1, 3));
    assert_eq!(mesh.no_faces(), 2);
    assert_eq!(mesh.no_halfedges(), 10);
    check_invariants(&mesh);
}

#[test]
fn split_face_adds_one_vertex_six_halfedges_two_faces() {
    let mut mesh = create_two_connected_faces();
    let (nv, nh, nf) = (mesh.no_vertices(), mesh.no_halfedges(), mesh.no_faces());
    let v = mesh.split_face(&FaceID::new(1));
    assert_eq!(v.val(), nv);
    assert_eq!(mesh.no_vertices(), nv + 1);
    assert_eq!(mesh.no_halfedges(), nh + 6);
    assert_eq!(mesh.no_faces(), nf + 2);
    let mut it = mesh.vertex_halfedge_iter(&v);
    let mut faces = 0;
    while let Some(w) = it.next() {
        assert!(w.face_id().is_some());
        faces += 1;
    }
    assert_eq!(faces, 3);
    check_invariants(&mesh);
}

#[test]
fn split_edge_counts_inside_and_on_the_boundary() {
    let mut mesh = create_two_connected_faces();
    let inner = mesh.connecting_edge(&VertexID::new(0), &VertexID::new(3)).unwrap();
    let (nv, nh, nf) = (mesh.no_vertices(), mesh.no_halfedges(), mesh.no_faces());
    let v = mesh.split_edge(&inner);
    assert_eq!((mesh.no_vertices(), mesh.no_halfedges(), mesh.no_faces()), (nv + 1, nh + 6, nf + 2));
    assert_eq!(mesh.walker_from_halfedge(&inner).vertex_id(), Some(v));
    assert_eq!(mesh.walker_from_halfedge(&inner).into_twin().vertex_id(), Some(VertexID::new(0)));

    let boundary = mesh.connecting_edge(&VertexID::new(1), &VertexID::new(3)).unwrap();
    let (nv, nh, nf) = (mesh.no_vertices(), mesh.no_halfedges(), mesh.no_faces());
    mesh.split_edge(&boundary);
    assert_eq!((mesh.no_vertices(), mesh.no_halfedges(), mesh.no_faces()), (nv + 1, nh + 4, nf + 1));
    check_invariants(&mesh);
}

#[test]
fn split_edge_from_the_boundary_side() {
    let mut mesh = create_single_face();
    let boundary = HalfEdgeID::new(4);
    assert!(mesh.walker_from_halfedge(&boundary).face_id().is_none());
    let v = mesh.split_edge(&boundary);
    assert_eq!(mesh.no_halfedges(), 10);
    assert_eq!(mesh.no_faces(), 2);
    assert_eq!(mesh.walker_from_halfedge(&boundary).vertex_id(), Some(v));
    assert!(mesh.walker_from_halfedge(&boundary).face_id().is_none());
    check_invariants(&mesh);
}

#[test]
fn test_splitting() {
    let indices: Vec<u32> = vec![0, 1, 2, 2, 1, 3, 3, 1, 4, 3, 4, 5];
    let positions: Vec<f32> = vec![0.0, 0.0, 0.0, 0.0, 0.0, 1.0, 1.0, 0.0, 0.5, 1.0, 0.0, 1.5, 0.0, 0.0, 2.0, 1.0, 0.0, 2.5];
    let mesh = Mesh::new_with_connectivity(&indices, 6);

    let cut: Vec<bool> = mesh
        .halfedge_iter()
        .iter()
        .map(|he_id| {
            let (v0, v1) = mesh.ordered_edge_vertices(he_id);
            let z0 = positions[3 * v0.val() + 2];
            let z1 = positions[3 * v1.val() + 2];
            z0 > 0.75 && z0 < 1.75 && z1 > 0.75 && z1 < 1.75
        })
        .collect();
    let meshes = mesh.split(&cut);

    assert_eq!(meshes.len(), 2);
    let m1 = &meshes[0];
    let m2 = &meshes[1];

    check_invariants(&mesh);
    check_invariants(m1);
    check_invariants(m2);

    assert_eq!(m1.no_faces(), 2);
    assert_eq!(m2.no_faces(), 2);
}

#[test]
fn component_without_cuts_is_everything_reachable() {
    let mesh = Mesh::new_with_connectivity(&vec![0, 1, 2, 2, 1, 3, 4, 5, 6], 7);
    let cut = vec![false; mesh.no_halfedges()];
    let component = connected_component_with_limit(&mesh, &FaceID::new(0), &cut);
    assert_eq!(component, vec![FaceID::new(0), FaceID::new(1)]);
    let components = mesh.components(&cut);
    assert_eq!(components, vec![vec![FaceID::new(0), FaceID::new(1)], vec![FaceID::new(2)]]);
}

#[test]
fn cut_everywhere_gives_one_component_per_face() {
    let mesh = create_two_connected_faces();
    let cut = vec![true; mesh.no_halfedges()];
    let components = mesh.components(&cut);
    assert_eq!(components.len(), 2);
    let meshes = mesh.split(&cut);
    assert_eq!(meshes.len(), 2);
    for m in meshes.iter() {
        assert_eq!(m.no_faces(), 1);
        assert_eq!(m.no_vertices(), 3);
        assert_eq!(m.no_halfedges(), 6);
    }
}

#[test]
fn clone_subset_renames_vertices_and_keeps_corners() {
    let mesh = create_two_connected_faces();
    let (copy, origins) = mesh.clone_subset(&vec![FaceID::new(1)]);
    assert_eq!(copy.no_faces(), 1);
    assert_eq!(copy.no_vertices(), 3);
    assert_eq!(copy.no_halfedges(), 6);
    assert_eq!(origins, vec![VertexID::new(0), VertexID::new(3), VertexID::new(1)]);
    let (a, b, c) = copy.face_vertices(&FaceID::new(0));
    let (x, y, z) = mesh.face_vertices(&FaceID::new(1));
    assert_eq!((origins[a.val()], origins[b.val()], origins[c.val()]), (x, y, z));
    let (both, _) = mesh.clone_subset(&vec![FaceID::new(0), FaceID::new(1)]);
    assert_eq!(both.no_vertices(), 4);
    assert_eq!(both.no_halfedges(), 10);
    assert_eq!(both.edge_iter().len(), 5);
    check_invariants(&both);
}

#[test]
fn vertex_made_on_the_boundary_has_a_ring_with_one_gap() {
    let mut mesh = create_single_face();
    let v = mesh.split_edge(&HalfEdgeID::new(0));
    let mut it = mesh.vertex_halfedge_iter(&v);
    let mut steps = 0;
    let mut gaps = 0;
    while let Some(w) = it.next() {
        steps += 1;
        if w.face_id().is_none() {
            gaps += 1;
        }
    }
    assert_eq!(steps, 3);
    assert_eq!(gaps, 1);
}

#[test]
fn vertex_made_inside_an_edge_has_a_closed_ring_of_four() {
    let mut mesh = create_two_connected_faces();
    let inner = mesh.connecting_edge(&VertexID::new(0), &VertexID::new(3)).unwrap();
    let v = mesh.split_edge(&inner);
    let mut it = mesh.vertex_halfedge_iter(&v);
    let mut steps = 0;
    while let Some(w) = it.next() {
        assert!(w.face_id().is_some());
        steps += 1;
    }
    assert_eq!(steps, 4);
}

#[test]
fn flip_orientation_reverses_every_face() {
    let mut mesh = create_two_connected_faces();
    let before = mesh.indices_buffer();
    mesh.flip_orientation();
    assert!(mesh.is_valid());
    let after = mesh.indices_buffer();
    for f in 0..2 {
        let mut a = vec![before[3 * f], before[3 * f + 1], before[3 * f + 2]];
        let mut b = vec![after[3 * f], after[3 * f + 1], after[3 * f + 2]];
        a.sort();
        b.sort();
        assert_eq!(a, b);
        assert_ne!(&before[3 * f..3 * f + 3], &after[3 * f..3 * f + 3]);
    }
    mesh.flip_orientation();
    assert_eq!(mesh.indices_buffer(), before);
}
