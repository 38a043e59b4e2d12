use geo_proc::connectivity_info::ConnectivityInfo;
use geo_proc::ids::{FaceID, HalfEdgeID, VertexID};
use geo_proc::mesh::{store_is_mesh, Mesh};

fn create_single_face() -> Mesh {
    Mesh::new_with_connectivity(&vec![0, 1, 2], 3)
}

fn create_two_connected_faces() -> Mesh {
    Mesh::new_with_connectivity(&vec![0, 2, 3, 0, 3, 1], 4)
}

fn create_three_connected_faces() -> Mesh {
    Mesh::new_with_connectivity(&vec![0, 2, 3, 0, 3, 1, 0, 1, 2], 4)
}

fn count_one_ring(mesh: &Mesh, vertex_id: &VertexID) -> usize {
    let mut it = mesh.vertex_halfedge_iter(vertex_id);
    let mut i = 0;
    while let Some(edge) = it.next() {
        assert!(edge.vertex_id().is_some());
        i = i + 1;
    }
    i
}

#[test]
fn test_vertex_iterator() {
    let mesh = create_three_connected_faces();

    let mut i = 0;
    for _ in mesh.vertex_iter() {
        i = i + 1;
    }
    assert_eq!(4, i);

    // Test that two iterations return the same result
    let vec: Vec<VertexID> = mesh.vertex_iter();
    i = 0;
    for vertex_id in mesh.vertex_iter() {
        assert_eq!(vertex_id, vec[i]);
        i = i + 1;
    }
}

#[test]
fn test_halfedge_iterator() {
    let mesh = create_three_connected_faces();

    let mut i = 0;
    for _ in mesh.halfedge_iter() {
        i = i + 1;
    }
    assert_eq!(12, i);

    // Test that two iterations return the same result
    let vec: Vec<HalfEdgeID> = mesh.halfedge_iter();
    i = 0;
    for halfedge_id in mesh.halfedge_iter() {
        assert_eq!(halfedge_id, vec[i]);
        i = i + 1;
    }
}

#[test]
fn test_face_iterator() {
    let mesh = create_three_connected_faces();

    let mut i = 0;
    for _ in mesh.face_iter() {
        i = i + 1;
    }
    assert_eq!(3, i);

    // Test that two iterations return the same result
    let vec: Vec<FaceID> = mesh.face_iter();
    i = 0;
    for face_id in mesh.face_iter() {
        assert_eq!(face_id, vec[i]);
        i = i + 1;
    }
}

#[test]
fn test_vertex_halfedge_iterator() {
    let mesh = create_three_connected_faces();

    let vertex_id = *mesh.vertex_iter().last().unwrap();
    let i = count_one_ring(&mesh, &vertex_id);
    assert_eq!(i, 3, "All edges of a one-ring are not visited");
}

#[test]
fn test_vertex_halfedge_iterator_with_holes() {
    let indices: Vec<u32> = vec![0, 2, 3, 0, 4, 1, 0, 1, 2];
    let mesh = Mesh::new_with_connectivity(&indices, 5);

    let i = count_one_ring(&mesh, &VertexID::new(0));
    assert_eq!(i, 4, "All edges of a one-ring are not visited");
}

#[test]
fn test_face_halfedge_iterator() {
    let mesh = create_single_face();
    let mut i = 0;
    let mut it = mesh.face_halfedge_iter(&FaceID::new(0));
    while let Some(edge) = it.next() {
        assert!(edge.halfedge_id().is_some());
        assert!(edge.face_id().is_some());
        i = i + 1;
    }
    assert_eq!(i, 3, "All edges of a face are not visited");
}

#[test]
fn mesh_test_one_face_connectivity() {
    let mesh = create_single_face();
    let v1 = VertexID::new(0);
    let v2 = VertexID::new(1);
    let v3 = VertexID::new(2);
    let f1 = FaceID::new(0);

    let t1 = mesh.walker_from_vertex(&v1).vertex_id();
    assert_eq!(t1, Some(v2.clone()));

    let t2 = mesh.walker_from_vertex(&v1).as_twin().vertex_id();
    assert_eq!(t2, Some(v1));

    let t3 = mesh.walker_from_vertex(&v2.clone()).as_next().as_next().vertex_id();
    assert_eq!(t3, Some(v2.clone()));

    let t4 = mesh.walker_from_face(&f1.clone()).as_twin().face_id();
    assert!(t4.is_none());

    let t5 = mesh.walker_from_face(&f1.clone()).as_twin().next_id();
    assert!(t5.is_none());

    let t6 = mesh.walker_from_face(&f1.clone()).as_previous().as_previous().as_twin().as_twin().face_id();
    assert_eq!(t6, Some(f1.clone()));

    let t7 = mesh.walker_from_vertex(&v2.clone()).as_next().as_next().next_id();
    assert_eq!(t7, mesh.walker_from_vertex(&v2).halfedge_id());

    let t8 = mesh.walker_from_vertex(&v3).face_id();
    assert_eq!(t8, Some(f1));
}

#[test]
fn dynamic_mesh_test_one_face_connectivity() {
    let mesh = create_single_face();
    let v1 = VertexID::new(0);
    let v2 = VertexID::new(1);
    let v3 = VertexID::new(2);
    let f1 = FaceID::new(0);

    let t1 = mesh.walker_from_vertex(&v1).vertex_id();
    assert_eq!(t1, Some(v2.clone()));

    let t2 = mesh.walker_from_vertex(&v1).into_twin().vertex_id();
    assert_eq!(t2, Some(v1));

    let t3 = mesh.walker_from_vertex(&v2.clone()).into_next().into_next().vertex_id();
    assert_eq!(t3, Some(v2.clone()));

    let t4 = mesh.walker_from_face(&f1.clone()).into_twin().face_id();
    assert!(t4.is_none());

    let t5 = mesh.walker_from_face(&f1.clone()).into_twin().next_id();
    assert!(t5.is_none());

    let t6 = mesh.walker_from_face(&f1.clone()).into_previous().into_previous().into_twin().into_twin().face_id();
    assert_eq!(t6, Some(f1.clone()));

    let t7 = mesh.walker_from_vertex(&v2.clone()).into_next().into_next().next_id();
    assert_eq!(t7, mesh.walker_from_vertex(&v2).halfedge_id());

    let t8 = mesh.walker_from_vertex(&v3).face_id();
    assert_eq!(t8, Some(f1));
}

fn three_face_round(mesh: &Mesh) {
    let mut id = None;
    for vertex_id in mesh.vertex_iter() {
        let mut round = true;
        let mut it = mesh.vertex_halfedge_iter(&vertex_id);
        while let Some(walker) = it.next() {
            if walker.face_id().is_none() {
                round = false;
                break;
            }
        }
        if round {
            id = Some(vertex_id);
            break;
        }
    }
    let mut walker = mesh.walker_from_vertex(&id.unwrap());
    let start_edge = walker.halfedge_id().unwrap();
    let one_round_edge = walker.as_previous().as_twin().as_previous().as_twin().as_previous().twin_id().unwrap();
    assert_eq!(start_edge, one_round_edge);
}

#[test]
fn mesh_test_three_face_connectivity() {
    let mesh = create_three_connected_faces();
    three_face_round(&mesh);
}

#[test]
fn dynamic_mesh_test_three_face_connectivity() {
    let mesh = create_three_connected_faces();
    three_face_round(&mesh);
}

#[test]
fn walker_on_no_halfedge_gives_nothing() {
    let mesh = create_single_face();
    let mut walker = mesh.walker();
    assert!(walker.halfedge_id().is_none());
    assert!(walker.vertex_id().is_none());
    assert!(walker.face_id().is_none());
    assert!(walker.twin_id().is_none());
    assert!(walker.as_next().halfedge_id().is_none());
    let beyond = mesh.walker_from_halfedge(&HalfEdgeID::new(100));
    assert!(beyond.vertex_id().is_none());
    assert!(beyond.previous_id().is_none());
}

#[test]
fn previous_is_next_twice() {
    let mesh = create_three_connected_faces();
    for halfedge_id in mesh.halfedge_iter() {
        let walker = mesh.walker_from_halfedge(&halfedge_id);
        if walker.face_id().is_some() {
            let by_steps = walker.into_next().into_next().halfedge_id();
            assert_eq!(walker.previous_id(), by_steps);
            assert_eq!(walker.into_previous().halfedge_id(), by_steps);
        }
    }
}

#[test]
fn closure_and_twin_symmetry_hold_after_build() {
    let mesh = create_three_connected_faces();
    for h in mesh.halfedge_iter() {
        let w = mesh.walker_from_halfedge(&h);
        let twin = w.twin_id().unwrap();
        assert_eq!(mesh.walker_from_halfedge(&twin).twin_id(), Some(h));
        if w.face_id().is_some() {
            assert_eq!(w.into_next().into_next().into_next().halfedge_id(), Some(h));
        }
    }
}

#[test]
fn two_faces_sharing_an_edge_have_five_edges() {
    let mesh = Mesh::new_with_connectivity(&vec![0, 1, 2, 2, 1, 3], 4);
    assert_eq!(mesh.edge_iter().len(), 5);
    assert_eq!(mesh.halfedge_iter().len(), 10);
    assert_eq!(mesh.halfedge_twins_iter().len(), 5);
}

#[test]
fn edges_are_ordered_and_unique() {
    let mesh = create_three_connected_faces();
    let edges = mesh.edge_iter();
    assert_eq!(edges.len(), 6);
    for (i, e) in edges.iter().enumerate() {
        assert!(e.0.val() < e.1.val());
        for f in edges.iter().skip(i + 1) {
            assert_ne!(e, f);
        }
    }
}

#[test]
fn twins_are_listed_once_in_order() {
    let mesh = create_single_face();
    let pairs = mesh.halfedge_twins_iter();
    assert_eq!(pairs, vec![
        (HalfEdgeID::new(0), HalfEdgeID::new(3)),
        (HalfEdgeID::new(1), HalfEdgeID::new(4)),
        (HalfEdgeID::new(2), HalfEdgeID::new(5)),
    ]);
}

#[test]
fn indices_buffer_starts_each_face_at_its_second_entry() {
    let mesh = create_two_connected_faces();
    assert_eq!(mesh.indices_buffer(), vec![2, 3, 0, 3, 1, 0]);
}

#[test]
fn face_vertices_follow_the_loop() {
    let mesh = create_single_face();
    let (a, b, c) = mesh.face_vertices(&FaceID::new(0));
    assert_eq!((a.val(), b.val(), c.val()), (1, 2, 0));
}

#[test]
fn connecting_edge_finds_the_directed_edge() {
    let mesh = create_single_face();
    let h = mesh.connecting_edge(&VertexID::new(0), &VertexID::new(1)).unwrap();
    assert_eq!(mesh.walker_from_halfedge(&h).vertex_id(), Some(VertexID::new(1)));
    assert_eq!(mesh.walker_from_halfedge(&h).into_twin().vertex_id(), Some(VertexID::new(0)));
    let back = mesh.connecting_edge(&VertexID::new(1), &VertexID::new(0)).unwrap();
    assert!(mesh.walker_from_halfedge(&back).face_id().is_none());
    let isolated = Mesh::new_with_connectivity(&vec![0, 1, 2], 4);
    assert!(isolated.connecting_edge(&VertexID::new(0), &VertexID::new(3)).is_none());
}

#[test]
fn isolated_vertex_has_an_empty_one_ring() {
    let mesh = Mesh::new_with_connectivity(&vec![0, 1, 2], 4);
    assert_eq!(mesh.no_vertices(), 4);
    assert_eq!(count_one_ring(&mesh, &VertexID::new(3)), 0);
}

#[test]
fn empty_triangle_list_gives_empty_mesh() {
    let mesh = Mesh::new_with_connectivity(&vec![], 0);
    assert_eq!(mesh.no_vertices(), 0);
    assert_eq!(mesh.no_halfedges(), 0);
    assert_eq!(mesh.no_faces(), 0);
    assert!(mesh.edge_iter().is_empty());
}

#[test]
fn store_iteration_skips_deleted_slots() {
    let mut store = ConnectivityInfo::new();
    let v0 = store.create_vertex();
    let v1 = store.create_vertex();
    let v2 = store.create_vertex();
    store.remove_vertex(&v1);
    assert_eq!(store.vertex_first_iter(), Some(v0));
    assert_eq!(store.vertex_next_iter(&v0), Some(v2));
    assert_eq!(store.vertex_next_iter(&v2), None);
    assert_eq!(store.no_vertices(), 2);

    let h0 = store.create_halfedge();
    let h1 = store.new_halfedge(Some(v2), Some(h0), None, None);
    store.set_halfedge_twin(&h0, Some(h1));
    store.set_halfedge_vertex(&h0, Some(v0));
    assert_eq!(store.halfedge_twin(&h0), Some(h1));
    assert_eq!(store.halfedge_vertex(&h1), Some(v2));
    store.remove_halfedge(&h0);
    assert_eq!(store.halfedge_first_iter(), Some(h1));
    assert!(store.halfedge(&h0).is_none());
    assert_eq!(store.no_halfedges(), 1);

    let f = store.create_face();
    store.set_face_halfedge(&f, Some(h1));
    store.set_halfedge_face(&h1, Some(f));
    store.set_halfedge_next(&h1, Some(h1));
    store.set_vertex_halfedge(&v0, Some(h1));
    assert_eq!(store.face_halfedge(&f), Some(h1));
    assert_eq!(store.halfedge_face(&h1), Some(f));
    assert_eq!(store.halfedge_next(&h1), Some(h1));
    assert_eq!(store.vertex_halfedge(&v0), Some(h1));
    assert_eq!(store.face_first_iter(), Some(f));
    assert_eq!(store.face_next_iter(&f), None);
    store.remove_face(&f);
    assert_eq!(store.face_first_iter(), None);
    assert_eq!(store.no_faces(), 0);
}

#[test]
fn validity_check_tells_broken_stores_apart() {
    let empty = ConnectivityInfo::new();
    assert!(store_is_mesh(&empty));

    let mut store = ConnectivityInfo::new();
    let v0 = store.create_vertex();
    let v1 = store.create_vertex();
    let h0 = store.new_halfedge(Some(v1), None, None, None);
    assert!(!store_is_mesh(&store));
    let h1 = store.new_halfedge(Some(v0), Some(h0), None, None);
    store.set_halfedge_twin(&h0, Some(h1));
    // a twin pair with no face on either side is no part of a triangle mesh
    assert!(!store_is_mesh(&store));

    let mut dead = ConnectivityInfo::new();
    let v = dead.create_vertex();
    dead.remove_vertex(&v);
    assert!(!store_is_mesh(&dead));

    assert!(Mesh::new_with_connectivity(&vec![0, 1, 2, 2, 1, 3], 4).is_valid());
}

#[test]
fn interior_vertex_one_ring_has_one_step_per_face() {
    let mesh = create_three_connected_faces();
    assert_eq!(count_one_ring(&mesh, &VertexID::new(0)), 3);
}
