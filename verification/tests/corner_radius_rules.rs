use cosmic_comp::corner_radius::{
    clamp_radius, corner_radii_too_big, layer_creation, manager_action, toplevel_creation,
    CacheableCorners, CacheablePadding, CornerRadiusInternal, Corners, Creation, HookSlot, LayerRequest,
    ManagerAction, ManagerRequest, Notify, Padding, RequestEffects, ToplevelRequest, role_surface,
    layer_surface,
};

fn corners(v: u8) -> Corners {
    Corners { top_left: v, top_right: v, bottom_right: v, bottom_left: v }
}

#[test]
fn radii_are_cut_to_a_byte() {
    assert_eq!(clamp_radius(0), 0);
    assert_eq!(clamp_radius(12), 12);
    assert_eq!(clamp_radius(255), 255);
    assert_eq!(clamp_radius(256), 255);
    assert_eq!(clamp_radius(u32::MAX), 255);
}

#[test]
fn set_corner_radius_keeps_each_corner() {
    let mut data: CornerRadiusInternal<()> = CornerRadiusInternal::new(Some(()));
    data.set_corner_radius(1, 300, 3, 4);
    assert_eq!(
        data.corners,
        Some(Corners { top_left: 1, top_right: 255, bottom_right: 3, bottom_left: 4 })
    );
    assert_eq!(data.padding, None);
}

#[test]
fn toplevel_set_radius_on_live_surface() {
    let mut data: CornerRadiusInternal<()> = CornerRadiusInternal::new(Some(()));
    let effects = data.toplevel_request(
        ToplevelRequest::SetRadius { top_left: 8, top_right: 8, bottom_right: 8, bottom_left: 8 },
        true,
    );
    assert_eq!(data.corners, Some(corners(8)));
    assert_eq!(
        effects,
        RequestEffects {
            surface_destroyed_error: false,
            pending_corners: Some(CacheableCorners(Some(corners(8)))),
            pending_padding: None,
            detach: false,
            notify: Notify::Changed,
        }
    );
}

#[test]
fn toplevel_requests_on_dead_surface() {
    let mut data: CornerRadiusInternal<()> = CornerRadiusInternal::new(None);
    let effects = data.toplevel_request(
        ToplevelRequest::SetRadius { top_left: 1, top_right: 2, bottom_right: 3, bottom_left: 4 },
        false,
    );
    assert!(effects.surface_destroyed_error);
    assert_eq!(effects.notify, Notify::Silent);
    assert_eq!(effects.pending_corners, None);
    assert!(data.corners.is_some());
    let effects = data.toplevel_request(ToplevelRequest::UnsetRadius, false);
    assert!(effects.surface_destroyed_error);
    assert_eq!(data.corners, None);
    let effects = data.toplevel_request(ToplevelRequest::Destroy, false);
    assert!(!effects.surface_destroyed_error);
    assert_eq!(effects.notify, Notify::Silent);
    assert!(!effects.detach);
}

#[test]
fn toplevel_destroy_on_live_surface_detaches() {
    let mut data: CornerRadiusInternal<()> = CornerRadiusInternal::new(Some(()));
    data.set_corner_radius(5, 5, 5, 5);
    let effects = data.toplevel_request(ToplevelRequest::Destroy, true);
    assert_eq!(data.corners, None);
    assert!(effects.detach);
    assert_eq!(effects.pending_corners, Some(CacheableCorners(None)));
    assert_eq!(effects.notify, Notify::Removed);
}

#[test]
fn layer_padding_requests() {
    let mut data: CornerRadiusInternal<u32> = CornerRadiusInternal::new(Some(7));
    let effects = data.layer_request(LayerRequest::SetPadding { top: 1, right: -2, bottom: 3, left: 4 }, true);
    let padding = Padding { top: 1, right: -2, bottom: 3, left: 4 };
    assert_eq!(data.padding, Some(padding));
    assert_eq!(effects.pending_padding, Some(CacheablePadding(Some(padding))));
    assert_eq!(effects.pending_corners, None);
    assert_eq!(effects.notify, Notify::Changed);
    let effects = data.layer_request(LayerRequest::UnsetPadding, true);
    assert_eq!(data.padding, None);
    assert_eq!(effects.pending_padding, Some(CacheablePadding(None)));
    assert_eq!(effects.notify, Notify::Removed);
    let effects = data.layer_request(LayerRequest::SetPadding { top: 0, right: 0, bottom: 0, left: 0 }, false);
    assert!(effects.surface_destroyed_error);
    assert_eq!(data.surface, Some(7));
}

#[test]
fn layer_destroy_clears_corners_and_padding() {
    let mut data: CornerRadiusInternal<()> = CornerRadiusInternal::new(Some(()));
    data.layer_request(LayerRequest::SetRadius { top_left: 9, top_right: 9, bottom_right: 9, bottom_left: 9 }, true);
    data.layer_request(LayerRequest::SetPadding { top: 1, right: 1, bottom: 1, left: 1 }, true);
    let effects = data.layer_request(LayerRequest::Destroy, true);
    assert_eq!(data.corners, None);
    assert_eq!(data.padding, None);
    assert!(effects.detach);
    assert_eq!(effects.pending_corners, Some(CacheableCorners(None)));
    assert_eq!(effects.pending_padding, Some(CacheablePadding(None)));
}

#[test]
fn layer_unset_radius_keeps_padding() {
    let mut data: CornerRadiusInternal<()> = CornerRadiusInternal::new(Some(()));
    data.layer_request(LayerRequest::SetPadding { top: 2, right: 2, bottom: 2, left: 2 }, true);
    let effects = data.layer_request(LayerRequest::UnsetRadius, false);
    assert!(effects.surface_destroyed_error);
    assert!(data.padding.is_some());
}

#[test]
fn manager_requests_always_initialize_the_new_object() {
    assert_eq!(manager_action(ManagerRequest::Destroy, true), ManagerAction::DropInstance);
    assert_eq!(manager_action(ManagerRequest::GetCornerRadius, true), ManagerAction::CreateForToplevel);
    assert_eq!(manager_action(ManagerRequest::GetCornerRadius, false), ManagerAction::Inert);
    assert_eq!(manager_action(ManagerRequest::GetCornerRadiusSurface, true), ManagerAction::CreateForToplevel);
    assert_eq!(manager_action(ManagerRequest::GetCornerRadiusSurface, false), ManagerAction::NoRoleInert);
    assert_eq!(manager_action(ManagerRequest::GetCornerRadiusLayer, true), ManagerAction::CreateForLayer);
    assert_eq!(manager_action(ManagerRequest::GetCornerRadiusLayer, false), ManagerAction::Inert);
}

#[test]
fn second_live_object_for_a_surface_is_refused() {
    assert_eq!(toplevel_creation(Some(true)), Creation::AlreadyExists);
    assert_eq!(toplevel_creation(Some(false)), Creation::Create { remove_stale_hook: true });
    assert_eq!(toplevel_creation(None), Creation::Create { remove_stale_hook: false });
    assert_eq!(layer_creation(true), Creation::AlreadyExists);
    assert_eq!(layer_creation(false), Creation::Create { remove_stale_hook: false });
}

#[test]
fn radius_may_be_at_most_half_the_smaller_side() {
    assert!(!corner_radii_too_big(Some((100, 40)), Some(corners(20))));
    assert!(corner_radii_too_big(Some((100, 40)), Some(corners(21))));
    assert!(corner_radii_too_big(
        Some((41, 100)),
        Some(Corners { top_left: 0, top_right: 21, bottom_right: 0, bottom_left: 0 })
    ));
    assert!(!corner_radii_too_big(Some((1000, 1000)), Some(corners(255))));
    assert!(!corner_radii_too_big(None, Some(corners(255))));
    assert!(!corner_radii_too_big(Some((0, 0)), None));
    assert!(corner_radii_too_big(Some((0, 10)), Some(corners(1))));
}

#[test]
fn negative_geometry_allows_any_radius_but_minus_one() {
    assert!(!corner_radii_too_big(Some((-10, 10)), Some(corners(255))));
    assert!(corner_radii_too_big(Some((-1, 10)), Some(corners(1))));
    assert!(!corner_radii_too_big(Some((-1, 10)), Some(corners(0))));
    assert!(!corner_radii_too_big(Some((-2, 10)), Some(corners(1))));
    assert!(!corner_radii_too_big(Some((10, -3)), Some(corners(255))));
}

#[test]
fn cacheable_state_commits_and_merges_by_copy() {
    let mut pending = CacheableCorners(Some(corners(3)));
    let committed = pending.commit();
    assert_eq!(committed, CacheableCorners(Some(corners(3))));
    assert_eq!(pending, committed);
    let mut current = CacheableCorners::default();
    assert_eq!(current, CacheableCorners(None));
    committed.merge_into(&mut current);
    assert_eq!(current, CacheableCorners(Some(corners(3))));
    let mut padding = CacheablePadding::default();
    assert_eq!(padding.commit(), CacheablePadding(None));
    CacheablePadding(Some(Padding { top: 1, right: 2, bottom: 3, left: 4 })).merge_into(&mut padding);
    assert_eq!(padding.0, Some(Padding { top: 1, right: 2, bottom: 3, left: 4 }));
}

#[test]
fn hook_slot_keeps_one_hook_per_surface() {
    let mut slot: HookSlot<u32> = HookSlot::new();
    assert_eq!(slot.current(), None);
    let (decision, stale) = slot.claim(false);
    assert_eq!(decision, Creation::Create { remove_stale_hook: false });
    assert_eq!(stale, None);
    assert_eq!(slot.install(1), None);
    assert_eq!(slot.current(), Some(&1));
    let (decision, stale) = slot.claim(true);
    assert_eq!(decision, Creation::AlreadyExists);
    assert_eq!(stale, None);
    assert_eq!(slot.current(), Some(&1));
    let (decision, stale) = slot.claim(false);
    assert_eq!(decision, Creation::Create { remove_stale_hook: true });
    assert_eq!(stale, Some(1));
    assert_eq!(slot.current(), None);
    slot.install(2);
    assert_eq!(slot.release(), Some(2));
    assert_eq!(slot.release(), None);
}

#[test]
fn role_surface_prefers_toplevels_then_popups() {
    let toplevels = [(1u64, 10u64), (2, 20), (2, 21)];
    let popups = [(3u64, 30u64), (2, 99)];
    assert_eq!(role_surface(&toplevels, &popups, 2), Some(20));
    assert_eq!(role_surface(&toplevels, &popups, 3), Some(30));
    assert_eq!(role_surface(&toplevels, &popups, 4), None);
    assert_eq!(role_surface(&[], &[], 1), None);
}

#[test]
fn layer_surface_finds_the_first_match() {
    let layers = [(5u64, 50u64), (6, 60), (5, 51)];
    assert_eq!(layer_surface(&layers, 5), Some(50));
    assert_eq!(layer_surface(&layers, 6), Some(60));
    assert_eq!(layer_surface(&layers, 7), None);
}
