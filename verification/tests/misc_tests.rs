use engvis::mesh_format::{triangulate_fan, MeshFormat};
use engvis::pipeline::{
    DualContouring, GradientNormalRecompute, MarchingCubes33, MeshBackend, NoPost,
    PolygonizerConfig,
};
use engvis::selection::Selection;
use engvis::wireframe::WireframeRenderer;

#[test]
fn mesh_format_from_extension() {
    assert_eq!(MeshFormat::from_path("model.obj"), Some(MeshFormat::Obj));
    assert_eq!(MeshFormat::from_path("dir/Model.STL"), Some(MeshFormat::Stl));
    assert_eq!(MeshFormat::from_path("scan.Ply"), Some(MeshFormat::Ply));
    assert_eq!(MeshFormat::from_path("archive.tar.obj"), Some(MeshFormat::Obj));
    assert_eq!(MeshFormat::from_path("noext"), None);
    assert_eq!(MeshFormat::from_path("model.gltf"), None);
    assert_eq!(MeshFormat::from_path(".obj"), None);
    assert_eq!(MeshFormat::from_path("dir.obj/"), Some(MeshFormat::Obj));
    assert_eq!(MeshFormat::from_path(""), None);
}

#[test]
fn polygon_fan() {
    assert_eq!(triangulate_fan(&vec![0, 1, 2, 3]), vec![0, 1, 2, 0, 2, 3]);
    assert_eq!(triangulate_fan(&vec![4, 5, 6]), vec![4, 5, 6]);
    assert!(triangulate_fan(&vec![1, 2]).is_empty());
}

#[test]
fn selection_kind_and_index() {
    assert_eq!(Selection::Nothing.kind(), "none");
    assert_eq!(Selection::Vertex(3).kind(), "vertex");
    assert_eq!(Selection::Edge(4).kind(), "edge");
    assert_eq!(Selection::Face(5).kind(), "face");
    assert_eq!(Selection::Nothing.index(), None);
    assert_eq!(Selection::Face(7).index(), Some(7));
    assert_eq!(Selection::Edge(9).index(), Some(9));
}

#[test]
fn pipeline_stage_names_and_config() {
    assert_eq!(DualContouring { depth: 5 }.name(), "Dual Contouring");
    assert_eq!(MarchingCubes33 { res: 32 }.name(), "Marching Cubes 33");
    assert_eq!(GradientNormalRecompute.name(), "Gradient Normal Recompute");
    assert_eq!(NoPost.name(), "none");
    assert_eq!(
        MeshBackend::DualContouring.polygonizer_config(6, 64),
        PolygonizerConfig::DualContouring { depth: 6 }
    );
    assert_eq!(
        MeshBackend::MarchingCubes33.polygonizer_config(6, 64),
        PolygonizerConfig::MarchingCubes33 { res: 64 }
    );
}

#[test]
fn wireframe_renderer_is_stateless() {
    assert_eq!(WireframeRenderer::new(), WireframeRenderer);
}
