use screen_task::{
    CommandBufferKind, CommandBufferRef, DisplayEvent, EngineRequest, HostAllocationInfo,
    InstanceField, Projection, ScreenTask, SurfaceError, SurfaceSource, TextureFormat,
    MAX_SURFACE_COUNT,
};

const DEVICE: u64 = 1;
const SWAPCHAIN: u64 = 10;

fn host_source(width: u32, height: u32) -> SurfaceSource {
    SurfaceSource::HostAllocation {
        info: HostAllocationInfo {
            size: [width, height],
            format: TextureFormat::Rgba8UnormSrgb,
            stride: 4 * width,
        },
        data: vec![0u8; (4 * width * height) as usize],
    }
}

fn attach(task: &mut ScreenTask, out: &mut Vec<EngineRequest>, device: u64, swapchain: u64) {
    let events = vec![DisplayEvent::SwapchainCreated {
        device,
        swapchain,
        size: [800, 800],
        format: TextureFormat::Bgra8UnormSrgb,
    }];
    let errors = task.update_resources(out, &events);
    assert!(errors.is_empty());
}

fn tick(task: &mut ScreenTask, out: &mut Vec<EngineRequest>) -> Vec<SurfaceError> {
    task.update_resources(out, &Vec::new())
}

fn live_ids(task: &ScreenTask, device: u64) -> Vec<usize> {
    let d = task.device_resources(device).unwrap();
    d.surface_manager.surfaces().iter().map(|s| s.id).collect()
}

fn count_pipelines(out: &[EngineRequest]) -> usize {
    out.iter().filter(|r| matches!(r, EngineRequest::RenderPipeline { .. })).count()
}

fn check_index_consistency(task: &ScreenTask, device: u64) {
    let d = task.device_resources(device).unwrap();
    let views = d.surface_manager.rectangle_views();
    for s in d.surface_manager.surfaces().iter() {
        let k = s.data.image_index as usize;
        assert_eq!(views[k], s.info.texture_view_id);
        assert_eq!(d.bind_group_views[k], s.info.texture_view_id);
    }
}

#[test]
fn index_consistency_after_each_tick() {
    let mut task = ScreenTask::new(16);
    let mut out = Vec::new();
    attach(&mut task, &mut out, DEVICE, SWAPCHAIN);
    for id in 0..5usize {
        task.create_surface(id, String::from("surface"), host_source(10, 10), [0, 0, 0], [10, 10]);
    }
    assert!(tick(&mut task, &mut out).is_empty());
    check_index_consistency(&task, DEVICE);
    task.remove_surface(1);
    task.remove_surface(3);
    task.create_surface(7, String::from("surface"), host_source(10, 10), [0, 0, 0], [10, 10]);
    assert!(tick(&mut task, &mut out).is_empty());
    assert_eq!(live_ids(&task, DEVICE), vec![0, 2, 4, 7]);
    check_index_consistency(&task, DEVICE);
    let d = task.device_resources(DEVICE).unwrap();
    let indices: Vec<u32> = d.surface_manager.surfaces().iter().map(|s| s.data.image_index).collect();
    assert_eq!(indices, vec![0, 1, 2, 3]);
}

#[test]
fn empty_device_binds_no_texture_array() {
    let mut task = ScreenTask::new(16);
    let mut out = Vec::new();
    attach(&mut task, &mut out, DEVICE, SWAPCHAIN);
    let d = task.device_resources(DEVICE).unwrap();
    assert_eq!(d.texture_binding_count, 0);
    assert!(d.bind_group_views.is_empty());
    assert!(d.displays.iter().all(|x| !x.render_pipeline_ready));
    assert!(out.iter().any(|r| matches!(
        r,
        EngineRequest::RenderPipeline { device: DEVICE, swapchain: SWAPCHAIN, fragment: false, .. }
    )));

    task.create_surface(0, String::from("surface"), host_source(4, 4), [0, 0, 0], [4, 4]);
    tick(&mut task, &mut out);
    let d = task.device_resources(DEVICE).unwrap();
    assert_eq!(d.texture_binding_count, 1);
    assert!(d.displays.iter().all(|x| x.render_pipeline_ready));

    task.remove_surface(0);
    out.clear();
    tick(&mut task, &mut out);
    let d = task.device_resources(DEVICE).unwrap();
    assert_eq!(d.texture_binding_count, 0);
    assert!(d.bind_group_views.is_empty());
    assert!(d.displays.iter().all(|x| !x.render_pipeline_ready));
    assert!(out.iter().any(|r| matches!(
        r,
        EngineRequest::BindGroupLayout { device: DEVICE, texture_count: 0 }
    )));
    assert!(out.iter().any(|r| matches!(
        r,
        EngineRequest::BindGroup { device: DEVICE, views } if views.is_empty()
    )));
}

#[test]
fn move_and_resize_rebuild_no_pipeline() {
    let mut task = ScreenTask::new(16);
    let mut out = Vec::new();
    attach(&mut task, &mut out, DEVICE, SWAPCHAIN);
    task.create_surface(0, String::from("surface"), host_source(4, 4), [0, 0, 0], [100, 100]);
    task.create_surface(1, String::from("surface"), host_source(4, 4), [0, 0, 1], [200, 200]);
    tick(&mut task, &mut out);
    out.clear();
    task.move_surface(0, [0, 0, 1]);
    task.move_surface(1, [0, 0, 0]);
    task.resize_surface(1, [50, 60]);
    assert!(tick(&mut task, &mut out).is_empty());
    assert_eq!(count_pipelines(&out), 0);
    assert!(!out.iter().any(|r| matches!(r, EngineRequest::CommandBuffer { .. })));
    assert!(out.iter().any(|r| matches!(
        r,
        EngineRequest::WriteInstanceField { id: 1, field: InstanceField::Size([50, 60]), .. }
    )));
    let d = task.device_resources(DEVICE).unwrap();
    let s = &d.surface_manager.surfaces()[1];
    assert_eq!(s.data.position, [0, 0, 0]);
    assert_eq!(s.data.size, [50, 60]);
}

#[test]
fn remove_then_add_keeps_order() {
    let mut task = ScreenTask::new(16);
    let mut out = Vec::new();
    attach(&mut task, &mut out, DEVICE, SWAPCHAIN);
    for id in [10usize, 11, 12] {
        task.create_surface(id, String::from("surface"), host_source(2, 2), [0, 0, 0], [2, 2]);
    }
    tick(&mut task, &mut out);
    task.remove_surface(11);
    task.create_surface(13, String::from("surface"), host_source(2, 2), [0, 0, 0], [2, 2]);
    tick(&mut task, &mut out);
    assert_eq!(live_ids(&task, DEVICE), vec![10, 12, 13]);
    let d = task.device_resources(DEVICE).unwrap();
    assert_eq!(d.surface_manager.surfaces()[2].id, 13);
    assert_eq!(d.surface_manager.surfaces()[2].data.image_index, 2);
}

#[test]
fn projected_corner_follows_move() {
    let mut task = ScreenTask::new(16);
    let mut out = Vec::new();
    attach(&mut task, &mut out, DEVICE, SWAPCHAIN);
    task.create_surface(0, String::from("surface"), host_source(4, 4), [0, 0, 0], [200, 200]);
    task.create_surface(1, String::from("surface"), host_source(4, 4), [0, 0, 1], [200, 200]);
    tick(&mut task, &mut out);
    let projection = match out.iter().rev().find(|r| matches!(r, EngineRequest::CommandBuffer { .. })) {
        Some(EngineRequest::CommandBuffer { passes, .. }) => passes[0].draw.unwrap().projection,
        _ => panic!("no command buffer"),
    };
    assert_eq!(projection.width, 800);
    assert_eq!(projection.height, 800);
    assert_eq!(projection.max_surface_count, 1024);
    let position = task.device_resources(DEVICE).unwrap().surface_manager.surfaces()[0].data.position;
    let p = projection.project(position);
    assert_eq!(p.x.num as f64 / p.x.den as f64, -1.0);
    assert_eq!(p.y.num as f64 / p.y.den as f64, 1.0);

    task.move_surface(0, [50, 50, 1]);
    tick(&mut task, &mut out);
    let position = task.device_resources(DEVICE).unwrap().surface_manager.surfaces()[0].data.position;
    let p = projection.project(position);
    assert_eq!(p.x.num as f64 / p.x.den as f64, -0.875);
    assert_eq!(p.y.num as f64 / p.y.den as f64, 0.875);
    assert_eq!(p.z.num as f64 / p.z.den as f64, 1.0 / 1024.0);
}

#[test]
fn destroy_surface_test() {
    let mut task = ScreenTask::new(16);
    let mut out = Vec::new();
    attach(&mut task, &mut out, DEVICE, SWAPCHAIN);
    task.create_surface(0, String::from("surface"), host_source(100, 100), [0, 0, 0], [100, 100]);
    tick(&mut task, &mut out);
    assert!(task.command_buffers().contains(&CommandBufferRef {
        device: DEVICE,
        kind: CommandBufferKind::Draw
    }));
    task.remove_surface(0);
    assert!(tick(&mut task, &mut out).is_empty());
    assert!(!task.command_buffers().contains(&CommandBufferRef {
        device: DEVICE,
        kind: CommandBufferKind::Draw
    }));
}

#[test]
fn swap_test() {
    let mut task = ScreenTask::new(16);
    let mut out = Vec::new();
    attach(&mut task, &mut out, DEVICE, SWAPCHAIN);
    task.create_surface(0, String::from("surface"), host_source(100, 100), [0, 0, 0], [100, 100]);
    task.create_surface(1, String::from("surface"), host_source(200, 200), [0, 0, 1], [200, 200]);
    tick(&mut task, &mut out);
    for upper in [true, false, true] {
        if upper {
            task.move_surface(0, [0, 0, 0]);
            task.move_surface(1, [0, 0, 1]);
        } else {
            task.move_surface(1, [0, 0, 0]);
            task.move_surface(0, [0, 0, 1]);
        }
        out.clear();
        assert!(tick(&mut task, &mut out).is_empty());
        assert_eq!(count_pipelines(&out), 0);
        let d = task.device_resources(DEVICE).unwrap();
        let z0 = d.surface_manager.surfaces()[0].data.position[2];
        let z1 = d.surface_manager.surfaces()[1].data.position[2];
        assert_eq!((z0, z1), if upper { (0, 1) } else { (1, 0) });
    }
}

#[test]
fn multioutput_test() {
    let mut task = ScreenTask::new(16);
    let mut out = Vec::new();
    attach(&mut task, &mut out, DEVICE, SWAPCHAIN);
    attach(&mut task, &mut out, DEVICE, SWAPCHAIN + 1);
    task.create_surface(0, String::from("surface"), host_source(100, 100), [0, 0, 0], [100, 100]);
    task.create_surface(1, String::from("surface"), host_source(200, 200), [0, 0, 1], [200, 200]);
    out.clear();
    tick(&mut task, &mut out);
    let d = task.device_resources(DEVICE).unwrap();
    assert_eq!(d.displays.len(), 2);
    assert!(d.displays.iter().all(|x| x.render_pipeline_ready));
    assert_eq!(count_pipelines(&out), 2);
    assert_eq!(out.iter().filter(|r| matches!(r, EngineRequest::BindGroup { .. })).count(), 1);
    match out.iter().rev().find(|r| matches!(r, EngineRequest::CommandBuffer { .. })) {
        Some(EngineRequest::CommandBuffer { passes, .. }) => {
            assert_eq!(passes.len(), 2);
            assert_eq!(passes[0].swapchain, SWAPCHAIN);
            assert_eq!(passes[1].swapchain, SWAPCHAIN + 1);
            assert_eq!(passes[1].draw.unwrap().instance_count, 2);
        }
        _ => panic!("no command buffer"),
    }

    // Resizing one display rebuilds its depth target and the draw, not the pipelines.
    out.clear();
    let events = vec![DisplayEvent::SwapchainUpdated {
        swapchain: SWAPCHAIN + 1,
        size: [400, 300],
        format: TextureFormat::Bgra8UnormSrgb,
    }];
    task.update_resources(&mut out, &events);
    assert_eq!(count_pipelines(&out), 0);
    assert!(out.iter().any(|r| matches!(
        r,
        EngineRequest::DepthTarget { swapchain, width: 400, height: 300, .. } if *swapchain == SWAPCHAIN + 1
    )));
    match out.iter().rev().find(|r| matches!(r, EngineRequest::CommandBuffer { .. })) {
        Some(EngineRequest::CommandBuffer { passes, .. }) => {
            assert_eq!(passes[1].draw.unwrap().projection, Projection { width: 400, height: 300, max_surface_count: MAX_SURFACE_COUNT });
        }
        _ => panic!("no command buffer"),
    }

    // Losing one display keeps the device; losing the last drops it.
    out.clear();
    task.update_resources(&mut out, &vec![DisplayEvent::SwapchainDestroyed { swapchain: SWAPCHAIN }]);
    assert_eq!(task.device_resources(DEVICE).unwrap().displays.len(), 1);
    task.update_resources(&mut out, &vec![DisplayEvent::SwapchainDestroyed { swapchain: SWAPCHAIN + 1 }]);
    assert!(task.device_resources(DEVICE).is_none());
    assert!(out.iter().any(|r| matches!(r, EngineRequest::DropDevice { device: DEVICE })));
    assert!(task.command_buffers().is_empty());
}

#[test]
fn unknown_surface_is_reported_and_batch_goes_on() {
    let mut task = ScreenTask::new(16);
    let mut out = Vec::new();
    attach(&mut task, &mut out, DEVICE, SWAPCHAIN);
    task.move_surface(5, [1, 2, 3]);
    task.create_surface(0, String::from("surface"), host_source(2, 2), [0, 0, 0], [2, 2]);
    task.resize_surface(6, [1, 1]);
    task.remove_surface(7);
    task.update_data(8, vec![1, 2, 3]);
    task.update_source(9, host_source(2, 2));
    let errors = tick(&mut task, &mut out);
    assert_eq!(
        errors,
        vec![
            SurfaceError::NotFound { id: 5 },
            SurfaceError::NotFound { id: 6 },
            SurfaceError::NotFound { id: 7 },
            SurfaceError::NotFound { id: 8 },
            SurfaceError::NotFound { id: 9 },
        ]
    );
    assert_eq!(live_ids(&task, DEVICE), vec![0]);
}

#[test]
fn duplicate_id_is_reported() {
    let mut task = ScreenTask::new(16);
    let mut out = Vec::new();
    attach(&mut task, &mut out, DEVICE, SWAPCHAIN);
    task.create_surface(3, String::from("a"), host_source(2, 2), [0, 0, 0], [2, 2]);
    task.create_surface(3, String::from("b"), host_source(2, 2), [0, 0, 0], [2, 2]);
    let errors = tick(&mut task, &mut out);
    assert_eq!(errors, vec![SurfaceError::DuplicateId { id: 3 }]);
    assert_eq!(live_ids(&task, DEVICE), vec![3]);
}

#[test]
fn texture_array_over_limit_stops_cascade() {
    let mut task = ScreenTask::new(1);
    let mut out = Vec::new();
    attach(&mut task, &mut out, DEVICE, SWAPCHAIN);
    task.create_surface(0, String::from("a"), host_source(2, 2), [0, 0, 0], [2, 2]);
    assert!(tick(&mut task, &mut out).is_empty());
    task.create_surface(1, String::from("b"), host_source(2, 2), [0, 0, 0], [2, 2]);
    out.clear();
    let errors = tick(&mut task, &mut out);
    assert_eq!(errors, vec![SurfaceError::CapacityExceeded { device: DEVICE }]);
    assert!(!out.iter().any(|r| matches!(r, EngineRequest::BindGroup { .. })));
    let d = task.device_resources(DEVICE).unwrap();
    assert_eq!(d.texture_binding_count, 1);
    assert_eq!(d.bind_group_views.len(), 1);
    assert!(!task.command_buffers().contains(&CommandBufferRef {
        device: DEVICE,
        kind: CommandBufferKind::Draw
    }));
}

#[test]
fn uploads_are_listed_for_one_tick() {
    let mut task = ScreenTask::new(16);
    let mut out = Vec::new();
    attach(&mut task, &mut out, DEVICE, SWAPCHAIN);
    task.create_surface(0, String::from("a"), host_source(2, 2), [0, 0, 0], [2, 2]);
    tick(&mut task, &mut out);
    task.note_uploads(DEVICE, true);
    assert_eq!(
        task.command_buffers(),
        vec![
            CommandBufferRef { device: DEVICE, kind: CommandBufferKind::Draw },
            CommandBufferRef { device: DEVICE, kind: CommandBufferKind::DataCopy },
        ]
    );
    tick(&mut task, &mut out);
    assert_eq!(task.command_buffers(), vec![CommandBufferRef { device: DEVICE, kind: CommandBufferKind::Draw }]);
}

#[test]
fn surfaces_reach_every_device() {
    let mut task = ScreenTask::new(16);
    let mut out = Vec::new();
    attach(&mut task, &mut out, 1, 10);
    attach(&mut task, &mut out, 2, 20);
    task.create_surface(4, String::from("a"), host_source(2, 2), [0, 0, 0], [2, 2]);
    task.create_surface(5, String::from("b"), host_source(2, 2), [0, 0, 0], [2, 2]);
    task.remove_surface(4);
    tick(&mut task, &mut out);
    assert_eq!(live_ids(&task, 1), vec![5]);
    assert_eq!(live_ids(&task, 2), vec![5]);
    check_index_consistency(&task, 1);
    check_index_consistency(&task, 2);
}

#[test]
fn format_change_rebuilds_that_pipeline_only() {
    let mut task = ScreenTask::new(16);
    let mut out = Vec::new();
    attach(&mut task, &mut out, DEVICE, SWAPCHAIN);
    attach(&mut task, &mut out, DEVICE, SWAPCHAIN + 1);
    task.create_surface(0, String::from("a"), host_source(2, 2), [0, 0, 0], [2, 2]);
    tick(&mut task, &mut out);
    out.clear();
    let events = vec![DisplayEvent::SwapchainUpdated {
        swapchain: SWAPCHAIN,
        size: [800, 800],
        format: TextureFormat::Rgba8UnormSrgb,
    }];
    task.update_resources(&mut out, &events);
    assert_eq!(count_pipelines(&out), 1);
    assert!(out.iter().any(|r| matches!(
        r,
        EngineRequest::RenderPipeline { device: DEVICE, swapchain: SWAPCHAIN, fragment: true, .. }
    )));
    let d = task.device_resources(DEVICE).unwrap();
    assert_eq!(d.displays[0].display.format, TextureFormat::Rgba8UnormSrgb);

    // An unknown swapchain changes nothing.
    out.clear();
    task.update_resources(&mut out, &vec![DisplayEvent::SwapchainDestroyed { swapchain: 99 }]);
    assert!(out.iter().all(|r| matches!(r, EngineRequest::FlushInstances { .. })));
    assert_eq!(task.device_resources(DEVICE).unwrap().displays.len(), 2);
}

#[test]
fn pipeline_requests_carry_format_and_push_constants() {
    let mut task = ScreenTask::new(16);
    let mut out = Vec::new();
    attach(&mut task, &mut out, DEVICE, SWAPCHAIN);
    assert!(out.iter().any(|r| matches!(
        r,
        EngineRequest::PipelineLayout { device: DEVICE, push_constant_bytes: 64 }
    )));
    assert!(out.iter().any(|r| matches!(
        r,
        EngineRequest::RenderPipeline {
            device: DEVICE,
            format: TextureFormat::Bgra8UnormSrgb,
            fragment: false,
            ..
        }
    )));
}

#[test]
fn over_limit_still_reconciles_indices() {
    let mut task = ScreenTask::new(1);
    let mut out = Vec::new();
    attach(&mut task, &mut out, DEVICE, SWAPCHAIN);
    task.create_surface(0, String::from("a"), host_source(2, 2), [0, 0, 0], [2, 2]);
    tick(&mut task, &mut out);
    task.create_surface(1, String::from("b"), host_source(2, 2), [0, 0, 0], [2, 2]);
    task.create_surface(2, String::from("c"), host_source(2, 2), [0, 0, 0], [2, 2]);
    tick(&mut task, &mut out);
    task.remove_surface(1);
    let errors = tick(&mut task, &mut out);
    assert_eq!(errors, vec![SurfaceError::CapacityExceeded { device: DEVICE }]);
    let d = task.device_resources(DEVICE).unwrap();
    let indices: Vec<u32> = d.surface_manager.surfaces().iter().map(|s| s.data.image_index).collect();
    assert_eq!(indices, vec![0, 1]);
    let views = d.surface_manager.rectangle_views();
    for s in d.surface_manager.surfaces().iter() {
        assert_eq!(views[s.data.image_index as usize], s.info.texture_view_id);
    }
}
