use std::sync::Arc;
use vicki::handle_table::BindlessImageHandle;
use vicki::image::{MeshMaterialMap, RawRgba8Image};
use vicki::image_cache::{LoadError, LoadedImage};
use vicki::mesh::{check_slots_in_bounds, rewrite_material_maps, MeshMaterial};
use vicki::resolver::{MeshMapResolver, Pending, ResolveError, ResolverAction, ResolverEvent};

fn asset_map(path: &str) -> MeshMaterialMap {
    MeshMaterialMap::Asset { path: path.to_string() }
}

fn decoded(fill: u8) -> Arc<RawRgba8Image> {
    Arc::new(RawRgba8Image { data: vec![fill; 4], dimensions: [1, 1] })
}

/// Drives a resolver to the end the way a caller does. Every asset is
/// decoded to an image filled with the length of its path, and the renderer
/// hands out the handles 1000, 1001, ... in the order of registration.
/// Returns the paths fetched and the ids registered, in order.
fn drive(resolver: &mut MeshMapResolver<String>) -> (Vec<String>, Vec<usize>) {
    let mut fetched = Vec::new();
    let mut registered = Vec::new();
    let mut event = ResolverEvent::Resume;
    loop {
        match resolver.step(event).unwrap() {
            ResolverAction::Fetch { path } => {
                fetched.push(path.clone());
                event = ResolverEvent::ImageFetched(Ok(LoadedImage {
                    image: decoded(path.len() as u8),
                    lazy_handle: format!("lazy:{}", path),
                }));
            }
            ResolverAction::Register { id, image } => {
                assert_eq!(image.dimensions, [1, 1]);
                registered.push(id);
                event = ResolverEvent::ImageRegistered(BindlessImageHandle(
                    1000 + registered.len() as u32 - 1,
                ));
            }
            ResolverAction::Done => return (fetched, registered),
        }
    }
}

#[test]
fn no_maps_are_done_at_once() {
    let mut resolver: MeshMapResolver<String> = MeshMapResolver::new(Vec::new());
    assert_eq!(resolver.step(ResolverEvent::Resume), Ok(ResolverAction::Done));
    assert_eq!(resolver.pending(), Pending::Nothing);
    assert!(resolver.mesh_map_gpu_ids().is_empty());
}

#[test]
fn every_distinct_key_is_fetched_and_registered_once() {
    let maps = vec![
        asset_map("albedo.png"),
        MeshMaterialMap::Placeholder([255, 0, 0, 255]),
        asset_map("albedo.png"),
        asset_map("normal.png"),
        MeshMaterialMap::Placeholder([255, 0, 0, 255]),
        MeshMaterialMap::Placeholder([0, 0, 0, 0]),
        asset_map("albedo.png"),
    ];
    let mut resolver = MeshMapResolver::new(maps);
    let (fetched, registered) = drive(&mut resolver);
    assert_eq!(fetched, vec!["albedo.png".to_string(), "normal.png".to_string()]);
    assert_eq!(registered, vec![0, 1, 2, 3]);
    let handles: Vec<u32> = resolver.mesh_map_gpu_ids().iter().map(|handle| handle.0).collect();
    assert_eq!(handles, vec![1000, 1001, 1000, 1002, 1001, 1003, 1000]);
    assert_eq!(resolver.pending(), Pending::Nothing);
    // Asking again changes nothing.
    assert_eq!(resolver.step(ResolverEvent::Resume), Ok(ResolverAction::Done));
}

#[test]
fn register_hands_out_the_image_that_was_fetched() {
    let mut resolver: MeshMapResolver<u8> = MeshMapResolver::new(vec![asset_map("a.png")]);
    assert_eq!(
        resolver.step(ResolverEvent::Resume),
        Ok(ResolverAction::Fetch { path: "a.png".to_string() })
    );
    assert_eq!(resolver.pending(), Pending::Image);
    let image = Arc::new(RawRgba8Image { data: vec![1, 2, 3, 4, 5, 6, 7, 8], dimensions: [2, 1] });
    let action = resolver
        .step(ResolverEvent::ImageFetched(Ok(LoadedImage { image: image.clone(), lazy_handle: 0 })))
        .unwrap();
    match action {
        ResolverAction::Register { id, image: handed_out } => {
            assert_eq!(id, 0);
            assert!(Arc::ptr_eq(&handed_out, &image));
        }
        other => panic!("expected a registration, got {:?}", other),
    }
    assert_eq!(resolver.pending(), Pending::Handle { id: 0 });
    assert!(resolver.mesh_map_gpu_ids().is_empty());
    assert_eq!(
        resolver.step(ResolverEvent::ImageRegistered(BindlessImageHandle(77))),
        Ok(ResolverAction::Done)
    );
    assert_eq!(resolver.mesh_map_gpu_ids(), &vec![BindlessImageHandle(77)]);
}

#[test]
fn placeholder_is_registered_as_one_pixel() {
    let mut resolver: MeshMapResolver<u8> =
        MeshMapResolver::new(vec![MeshMaterialMap::Placeholder([255, 0, 0, 255])]);
    match resolver.step(ResolverEvent::Resume).unwrap() {
        ResolverAction::Register { id, image } => {
            assert_eq!(id, 0);
            assert_eq!(image.data, vec![255, 0, 0, 255]);
            assert_eq!(image.dimensions, [1, 1]);
        }
        other => panic!("expected a registration, got {:?}", other),
    }
}

#[test]
fn a_hit_is_resolved_only_after_its_miss_was_registered() {
    let red = MeshMaterialMap::Placeholder([255, 0, 0, 255]);
    let mut resolver: MeshMapResolver<u8> = MeshMapResolver::new(vec![red.clone(), red]);
    assert!(matches!(
        resolver.step(ResolverEvent::Resume),
        Ok(ResolverAction::Register { id: 0, .. })
    ));
    // The second map is the same key, but while the first is being
    // registered the resolver does not go on to it.
    assert_eq!(resolver.step(ResolverEvent::Resume), Err(ResolveError::UnexpectedEvent));
    assert!(resolver.mesh_map_gpu_ids().is_empty());
    assert_eq!(resolver.pending(), Pending::Handle { id: 0 });
    assert_eq!(
        resolver.step(ResolverEvent::ImageRegistered(BindlessImageHandle(5))),
        Ok(ResolverAction::Done)
    );
    assert_eq!(
        resolver.mesh_map_gpu_ids(),
        &vec![BindlessImageHandle(5), BindlessImageHandle(5)]
    );
}

#[test]
fn failed_load_is_passed_on_and_can_be_tried_again() {
    let mut resolver: MeshMapResolver<u8> = MeshMapResolver::new(vec![
        MeshMaterialMap::Placeholder([1, 1, 1, 1]),
        asset_map("missing.png"),
    ]);
    assert!(matches!(
        resolver.step(ResolverEvent::Resume),
        Ok(ResolverAction::Register { id: 0, .. })
    ));
    assert_eq!(
        resolver.step(ResolverEvent::ImageRegistered(BindlessImageHandle(9))),
        Ok(ResolverAction::Fetch { path: "missing.png".to_string() })
    );
    let error = LoadError { path: "missing.png".to_string(), cause: "not found".to_string() };
    assert_eq!(
        resolver.step(ResolverEvent::ImageFetched(Err(LoadError {
            path: "missing.png".to_string(),
            cause: "not found".to_string(),
        }))),
        Err(ResolveError::Load(error))
    );
    assert_eq!(resolver.pending(), Pending::Nothing);
    assert_eq!(resolver.mesh_map_gpu_ids(), &vec![BindlessImageHandle(9)]);
    // Resuming asks for the same asset again; this time it is there.
    assert_eq!(
        resolver.step(ResolverEvent::Resume),
        Ok(ResolverAction::Fetch { path: "missing.png".to_string() })
    );
    assert!(matches!(
        resolver.step(ResolverEvent::ImageFetched(Ok(LoadedImage {
            image: decoded(0),
            lazy_handle: 1,
        }))),
        Ok(ResolverAction::Register { id: 1, .. })
    ));
    assert_eq!(
        resolver.step(ResolverEvent::ImageRegistered(BindlessImageHandle(10))),
        Ok(ResolverAction::Done)
    );
    assert_eq!(
        resolver.mesh_map_gpu_ids(),
        &vec![BindlessImageHandle(9), BindlessImageHandle(10)]
    );
}

#[test]
fn events_that_answer_nothing_are_refused() {
    let mut resolver: MeshMapResolver<u8> = MeshMapResolver::new(vec![asset_map("a.png")]);
    // Waiting for nothing.
    assert_eq!(
        resolver.step(ResolverEvent::ImageRegistered(BindlessImageHandle(1))),
        Err(ResolveError::UnexpectedEvent)
    );
    assert_eq!(
        resolver.step(ResolverEvent::ImageFetched(Ok(LoadedImage {
            image: decoded(0),
            lazy_handle: 0,
        }))),
        Err(ResolveError::UnexpectedEvent)
    );
    assert_eq!(resolver.pending(), Pending::Nothing);
    // Waiting for an image.
    assert!(matches!(resolver.step(ResolverEvent::Resume), Ok(ResolverAction::Fetch { .. })));
    assert_eq!(resolver.step(ResolverEvent::Resume), Err(ResolveError::UnexpectedEvent));
    assert_eq!(
        resolver.step(ResolverEvent::ImageRegistered(BindlessImageHandle(1))),
        Err(ResolveError::UnexpectedEvent)
    );
    assert_eq!(resolver.pending(), Pending::Image);
    // Waiting for a handle.
    assert!(matches!(
        resolver.step(ResolverEvent::ImageFetched(Ok(LoadedImage {
            image: decoded(0),
            lazy_handle: 0,
        }))),
        Ok(ResolverAction::Register { id: 0, .. })
    ));
    assert_eq!(
        resolver.step(ResolverEvent::ImageFetched(Ok(LoadedImage {
            image: decoded(0),
            lazy_handle: 0,
        }))),
        Err(ResolveError::UnexpectedEvent)
    );
    assert_eq!(resolver.pending(), Pending::Handle { id: 0 });
    assert!(resolver.mesh_map_gpu_ids().is_empty());
}

#[test]
fn parts_hold_the_cache_the_table_and_the_handles() {
    let maps = vec![asset_map("a.png"), MeshMaterialMap::Placeholder([0, 0, 0, 0])];
    let mut resolver = MeshMapResolver::new(maps);
    drive(&mut resolver);
    let (cache, table, handles) = resolver.into_parts();
    assert_eq!(cache.lookup(&asset_map("a.png")), Some(0));
    assert_eq!(cache.lookup(&MeshMaterialMap::Placeholder([0, 0, 0, 0])), Some(1));
    assert_eq!(cache.lazy_handle("a.png"), Some(&"lazy:a.png".to_string()));
    assert_eq!(table.resolve(0), BindlessImageHandle(1000));
    assert_eq!(table.resolve(1), BindlessImageHandle(1001));
    assert!(!table.is_registered(2));
    assert_eq!(handles, vec![BindlessImageHandle(1000), BindlessImageHandle(1001)]);
}

#[test]
fn resolved_handles_rewrite_the_materials() {
    let maps = vec![
        asset_map("albedo.png"),
        MeshMaterialMap::Placeholder([127, 127, 255, 255]),
        asset_map("albedo.png"),
    ];
    let mut materials =
        vec![MeshMaterial { maps: vec![0, 1] }, MeshMaterial { maps: vec![2, 1, 0] }];
    let mut resolver = MeshMapResolver::new(maps);
    drive(&mut resolver);
    let handles = resolver.mesh_map_gpu_ids();
    assert!(check_slots_in_bounds(&materials, handles.len()));
    rewrite_material_maps(&mut materials, handles);
    assert_eq!(materials[0].maps, vec![1000, 1001]);
    assert_eq!(materials[1].maps, vec![1000, 1001, 1000]);
}
