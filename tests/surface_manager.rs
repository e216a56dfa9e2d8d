use screen_task::{
    DmabufInfo, EngineRequest, HostAllocationInfo, InstanceField, SurfaceError,
    SurfaceManager, SurfaceSource, SurfaceSourceInfo, TextureFormat, TextureOrigin,
};

fn host_source(width: u32, height: u32, format: TextureFormat) -> SurfaceSource {
    SurfaceSource::HostAllocation {
        info: HostAllocationInfo { size: [width, height], format, stride: 4 * width },
        data: vec![7u8; (4 * width * height) as usize],
    }
}

fn dmabuf_source() -> SurfaceSource {
    SurfaceSource::Dmabuf {
        info: DmabufInfo {
            size: [640, 480],
            modifier: 9,
            fd: 3,
            plane_offset: 16,
            plane_stride: 2560,
        },
    }
}

fn pool_with(ids: &[usize]) -> (SurfaceManager, Vec<EngineRequest>) {
    let mut pool = SurfaceManager::new(4);
    let mut out = Vec::new();
    for &id in ids {
        let r = pool.create_surface(
            &mut out,
            String::from("s"),
            id,
            host_source(2, 2, TextureFormat::Rgba8Unorm),
            [1, 2, 3],
            [2, 2],
        );
        assert_eq!(r, Ok(()));
    }
    (pool, out)
}

#[test]
fn create_requests_texture_upload_and_slot() {
    let (pool, out) = pool_with(&[5]);
    assert_eq!(out.len(), 3);
    match &out[0] {
        EngineRequest::CreateTexture { device, label, texture, view, plan } => {
            assert_eq!((*device, label.as_str(), *texture, *view), (4, "s", 5, 5));
            assert_eq!((plan.width, plan.height, plan.bytes_per_row, plan.rows_per_image), (2, 2, 8, 2));
            assert!(matches!(plan.origin, TextureOrigin::Local));
        }
        _ => panic!("expected a texture"),
    }
    match &out[1] {
        EngineRequest::WriteTexture { upload, .. } => {
            assert_eq!(upload.texture, 5);
            assert_eq!(upload.data.len(), 16);
        }
        _ => panic!("expected an upload"),
    }
    match &out[2] {
        EngineRequest::RequestInstance { id, data, .. } => {
            assert_eq!(*id, 5);
            assert_eq!(data.image_index, 0);
            assert_eq!(data.position, [1, 2, 3]);
        }
        _ => panic!("expected an instance"),
    }
    assert_eq!(pool.len(), 1);
}

#[test]
fn provisional_index_is_position() {
    let (pool, _) = pool_with(&[9, 4, 6]);
    let indices: Vec<u32> = pool.surfaces().iter().map(|s| s.data.image_index).collect();
    assert_eq!(indices, vec![0, 1, 2]);
    assert_eq!(pool.rectangle_views(), vec![9, 4, 6]);
}

#[test]
fn reconcile_twice_is_reconcile_once() {
    let (mut pool, mut out) = pool_with(&[1, 2, 3, 4]);
    assert!(pool.remove_surface(&mut out, 2));
    let before: Vec<u32> = pool.surfaces().iter().map(|s| s.data.image_index).collect();
    assert_eq!(before, vec![0, 2, 3]);
    out.clear();
    pool.update_image_indexes(&mut out);
    let once: Vec<(usize, u32, [i32; 3], [u32; 2])> =
        pool.surfaces().iter().map(|s| (s.id, s.data.image_index, s.data.position, s.data.size)).collect();
    assert_eq!(once.iter().map(|x| x.1).collect::<Vec<u32>>(), vec![0, 1, 2]);
    assert_eq!(out.len(), 3);
    assert!(matches!(
        out[1],
        EngineRequest::WriteInstanceField { id: 3, field: InstanceField::ImageIndex(1), .. }
    ));
    pool.update_image_indexes(&mut out);
    let twice: Vec<(usize, u32, [i32; 3], [u32; 2])> =
        pool.surfaces().iter().map(|s| (s.id, s.data.image_index, s.data.position, s.data.size)).collect();
    assert_eq!(once, twice);
}

#[test]
fn removal_keeps_order_and_releases() {
    let (mut pool, mut out) = pool_with(&[1, 2, 3]);
    out.clear();
    assert!(pool.remove_surface(&mut out, 2));
    assert_eq!(pool.rectangle_views(), vec![1, 3]);
    assert!(matches!(out[0], EngineRequest::ReleaseInstance { device: 4, id: 2 }));
    assert!(matches!(out[1], EngineRequest::RemoveTexture { device: 4, texture: 2, view: 2 }));
    assert!(!pool.remove_surface(&mut out, 2));
    assert_eq!(out.len(), 2);
}

#[test]
fn move_and_resize_of_unknown_fail() {
    let (mut pool, mut out) = pool_with(&[1]);
    out.clear();
    assert!(!pool.move_surface(&mut out, 8, [0, 0, 0]));
    assert!(!pool.resize_surface(&mut out, 8, [1, 1]));
    assert!(out.is_empty());
    assert!(pool.move_surface(&mut out, 1, [-5, 6, 2]));
    assert!(matches!(
        out[0],
        EngineRequest::WriteInstanceField { id: 1, field: InstanceField::Position([-5, 6, 2]), .. }
    ));
    assert_eq!(pool.surfaces()[0].data.position, [-5, 6, 2]);
    assert_eq!(pool.surfaces()[0].info.position, [-5, 6, 2]);
}

#[test]
fn duplicate_create_is_refused() {
    let (mut pool, mut out) = pool_with(&[1]);
    out.clear();
    let r = pool.create_surface(
        &mut out,
        String::from("again"),
        1,
        host_source(2, 2, TextureFormat::Rgba8Unorm),
        [0, 0, 0],
        [1, 1],
    );
    assert_eq!(r, Err(SurfaceError::DuplicateId { id: 1 }));
    assert!(out.is_empty());
    assert_eq!(pool.len(), 1);
}

#[test]
fn update_source_reuses_a_fitting_texture() {
    let (mut pool, mut out) = pool_with(&[1]);
    out.clear();
    let r = pool.update_source(&mut out, 1, host_source(2, 2, TextureFormat::Rgba8Unorm));
    assert_eq!(r, Ok(()));
    assert_eq!(out.len(), 1);
    assert!(matches!(out[0], EngineRequest::WriteTexture { .. }));
}

#[test]
fn update_source_recreates_an_unfitting_texture() {
    let (mut pool, mut out) = pool_with(&[1, 2]);
    out.clear();
    let r = pool.update_source(&mut out, 2, host_source(3, 2, TextureFormat::Rgba8Unorm));
    assert_eq!(r, Ok(()));
    assert_eq!(out.len(), 2);
    match &out[0] {
        EngineRequest::ReplaceTexture { texture, view, plan, .. } => {
            assert_eq!((*texture, *view, plan.width, plan.bytes_per_row), (2, 2, 3, 12));
        }
        _ => panic!("expected a new texture"),
    }
    assert!(matches!(out[1], EngineRequest::WriteTexture { .. }));
    assert_eq!(pool.rectangle_views(), vec![1, 2]);
    assert_eq!(pool.surfaces()[1].data.image_index, 1);

    out.clear();
    let r = pool.update_source(&mut out, 1, host_source(2, 2, TextureFormat::Bgra8Unorm));
    assert_eq!(r, Ok(()));
    assert!(matches!(out[0], EngineRequest::ReplaceTexture { texture: 1, .. }));

    out.clear();
    let r = pool.update_source(&mut out, 1, dmabuf_source());
    assert_eq!(r, Ok(()));
    assert_eq!(out.len(), 1);
    assert!(matches!(out[0], EngineRequest::ReplaceTexture { texture: 1, .. }));
    assert!(matches!(pool.surfaces()[0].info.info, SurfaceSourceInfo::Dmabuf(_)));

    assert_eq!(pool.update_source(&mut out, 42, dmabuf_source()), Err(SurfaceError::NotFound { id: 42 }));
}

#[test]
fn update_data_lays_out_four_bytes_a_texel() {
    let (pool, mut out) = pool_with(&[1]);
    out.clear();
    assert_eq!(pool.update_data(&mut out, 1, vec![1, 2, 3, 4]), Ok(()));
    match &out[0] {
        EngineRequest::WriteTexture { device, upload } => {
            assert_eq!(*device, 4);
            assert_eq!((upload.texture, upload.width, upload.height), (1, 2, 2));
            assert_eq!((upload.bytes_per_row, upload.rows_per_image), (8, 2));
            assert_eq!(upload.data, vec![1, 2, 3, 4]);
        }
        _ => panic!("expected an upload"),
    }
    assert_eq!(pool.update_data(&mut out, 2, vec![]), Err(SurfaceError::NotFound { id: 2 }));
}

#[test]
fn dmabuf_plan() {
    let (plan, pixels) = SurfaceManager::prepare_texture(dmabuf_source());
    assert!(pixels.is_none());
    assert_eq!((plan.width, plan.height, plan.bytes_per_row, plan.rows_per_image), (640, 480, 2560, 480));
    assert_eq!(plan.format, TextureFormat::Rgba8UnormSrgb);
    match plan.origin {
        TextureOrigin::Dmabuf { fd, modifier, plane_offset, plane_end, row_pitch } => {
            assert_eq!((fd, modifier, plane_offset, row_pitch), (3, 9, 16, 2560));
            assert_eq!(plane_end, 2560u128 * 640 * 480);
        }
        TextureOrigin::Local => panic!("expected an import"),
    }
}

#[test]
fn book_id_counts_up() {
    let mut pool = SurfaceManager::new(0);
    assert_eq!(pool.book_id(), 0);
    assert_eq!(pool.book_id(), 1);
    assert_eq!(pool.device(), 0);
}
