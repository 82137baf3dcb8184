//! The rules of the corner-radius protocol: the state each corner-radius
//! object keeps, what each request does to it and to its surface, when the
//! manager creates an object, and when a committed radius is too large.
use vstd::prelude::*;

verus! {

/// The radius of each corner of a surface, in logical pixels.
#[derive(Clone, Copy, Debug, PartialEq, Eq, Structural)]
pub struct Corners {
    pub top_left: u8,
    pub top_right: u8,
    pub bottom_right: u8,
    pub bottom_left: u8,
}

/// The padding around a layer surface's content, in logical pixels.
#[derive(Clone, Copy, Debug, PartialEq, Eq, Structural)]
pub struct Padding {
    pub top: i32,
    pub right: i32,
    pub bottom: i32,
    pub left: i32,
}

/// The corners of a surface as double-buffered surface state.
#[derive(Clone, Copy, Debug, PartialEq, Eq, Structural)]
pub struct CacheableCorners(pub Option<Corners>);

/// The padding of a layer surface as double-buffered surface state.
#[derive(Clone, Copy, Debug, PartialEq, Eq, Structural)]
pub struct CacheablePadding(pub Option<Padding>);

impl Default for CacheableCorners {
    fn default() -> (r: Self)
        ensures
            r.0 is None,
    {
        CacheableCorners(None)
    }
}

impl Default for CacheablePadding {
    fn default() -> (r: Self)
        ensures
            r.0 is None,
    {
        CacheablePadding(None)
    }
}

impl CacheableCorners {
    /// The state that a commit makes current: the pending state, unchanged.
    pub fn commit(&mut self) -> (r: Self)
        ensures
            r == *old(self),
            *final(self) == *old(self),
    {
        *self
    }

    /// Merges this newer state into `into`: it replaces what `into` held.
    pub fn merge_into(self, into: &mut Self)
        ensures
            *final(into) == self,
    {
        *into = self;
    }
}

impl CacheablePadding {
    /// The state that a commit makes current: the pending state, unchanged.
    pub fn commit(&mut self) -> (r: Self)
        ensures
            r == *old(self),
            *final(self) == *old(self),
    {
        *self
    }

    /// Merges this newer state into `into`: it replaces what `into` held.
    pub fn merge_into(self, into: &mut Self)
        ensures
            *final(into) == self,
    {
        *into = self;
    }
}

/// A requested radius, cut to what a `u8` holds.
pub open spec fn clamped(value: u32) -> u8 {
    if value <= 255 {
        value as u8
    } else {
        255
    }
}

/// Cuts a requested radius to what a `u8` holds.
pub fn clamp_radius(value: u32) -> (r: u8)
    ensures
        r == clamped(value),
{
    if value <= 255 {
        value as u8
    } else {
        255
    }
}

/// The corners that four requested radii give.
pub open spec fn corners_of(top_left: u32, top_right: u32, bottom_right: u32, bottom_left: u32) -> Corners {
    Corners {
        top_left: clamped(top_left),
        top_right: clamped(top_right),
        bottom_right: clamped(bottom_right),
        bottom_left: clamped(bottom_left),
    }
}

/// The state of one corner-radius object.
///
/// `surface` is the surface that the object belongs to, as the caller holds
/// it; inert objects, made where a request could not be honoured, have none.
pub struct CornerRadiusInternal<S> {
    pub surface: Option<S>,
    pub corners: Option<Corners>,
    pub padding: Option<Padding>,
}

/// A request to a toplevel's corner-radius object.
pub enum ToplevelRequest {
    Destroy,
    SetRadius { top_left: u32, top_right: u32, bottom_right: u32, bottom_left: u32 },
    UnsetRadius,
}

/// A request to a layer surface's corner-radius object.
pub enum LayerRequest {
    Destroy,
    SetRadius { top_left: u32, top_right: u32, bottom_right: u32, bottom_left: u32 },
    UnsetRadius,
    SetPadding { top: i32, right: i32, bottom: i32, left: i32 },
    UnsetPadding,
}

/// Which of the compositor's handlers a request ends with.
#[derive(Clone, Copy, Debug, PartialEq, Eq, Structural)]
pub enum Notify {
    Silent,
    /// The object's corners or padding changed.
    Changed,
    /// The object's corners or padding were removed.
    Removed,
}

/// What handling a request does besides changing the object's own state.
#[derive(Clone, Copy, Debug, PartialEq, Eq, Structural)]
pub struct RequestEffects {
    /// Post the protocol error that the object's surface was destroyed.
    pub surface_destroyed_error: bool,
    /// Store this as the surface's pending corners.
    pub pending_corners: Option<CacheableCorners>,
    /// Store this as the surface's pending padding.
    pub pending_padding: Option<CacheablePadding>,
    /// Detach the object from its surface: a toplevel's size-check hook is
    /// removed, a layer surface forgets the object.
    pub detach: bool,
    pub notify: Notify,
}

/// The effects of a request that found no live surface: none, or the error
/// that the surface was destroyed.
pub open spec fn no_surface_effects(error: bool) -> RequestEffects {
    RequestEffects {
        surface_destroyed_error: error,
        pending_corners: None,
        pending_padding: None,
        detach: false,
        notify: Notify::Silent,
    }
}

/// What a request to a toplevel's object does where the object's surface is
/// alive (`alive`) or gone.
pub open spec fn toplevel_effects(
    request: ToplevelRequest,
    corners_after: Option<Corners>,
    alive: bool,
) -> RequestEffects {
    match request {
        ToplevelRequest::Destroy => if alive {
            RequestEffects {
                surface_destroyed_error: false,
                pending_corners: Some(CacheableCorners(None)),
                pending_padding: None,
                detach: true,
                notify: Notify::Removed,
            }
        } else {
            no_surface_effects(false)
        },
        ToplevelRequest::SetRadius { .. } => if alive {
            RequestEffects {
                surface_destroyed_error: false,
                pending_corners: Some(CacheableCorners(corners_after)),
                pending_padding: None,
                detach: false,
                notify: Notify::Changed,
            }
        } else {
            no_surface_effects(true)
        },
        ToplevelRequest::UnsetRadius => if alive {
            RequestEffects {
                surface_destroyed_error: false,
                pending_corners: Some(CacheableCorners(None)),
                pending_padding: None,
                detach: false,
                notify: Notify::Removed,
            }
        } else {
            no_surface_effects(true)
        },
    }
}

/// What a request to a layer surface's object does where the object's
/// surface is alive (`alive`) or gone.
pub open spec fn layer_effects(
    request: LayerRequest,
    corners_after: Option<Corners>,
    padding_after: Option<Padding>,
    alive: bool,
) -> RequestEffects {
    match request {
        LayerRequest::Destroy => if alive {
            RequestEffects {
                surface_destroyed_error: false,
                pending_corners: Some(CacheableCorners(None)),
                pending_padding: Some(CacheablePadding(None)),
                detach: true,
                notify: Notify::Removed,
            }
        } else {
            no_surface_effects(false)
        },
        LayerRequest::SetRadius { .. } => if alive {
            RequestEffects {
                surface_destroyed_error: false,
                pending_corners: Some(CacheableCorners(corners_after)),
                pending_padding: None,
                detach: false,
                notify: Notify::Changed,
            }
        } else {
            no_surface_effects(true)
        },
        LayerRequest::UnsetRadius => if alive {
            RequestEffects {
                surface_destroyed_error: false,
                pending_corners: Some(CacheableCorners(None)),
                pending_padding: None,
                detach: false,
                notify: Notify::Removed,
            }
        } else {
            no_surface_effects(true)
        },
        LayerRequest::SetPadding { .. } => if alive {
            RequestEffects {
                surface_destroyed_error: false,
                pending_corners: None,
                pending_padding: Some(CacheablePadding(padding_after)),
                detach: false,
                notify: Notify::Changed,
            }
        } else {
            no_surface_effects(true)
        },
        LayerRequest::UnsetPadding => if alive {
            RequestEffects {
                surface_destroyed_error: false,
                pending_corners: None,
                pending_padding: Some(CacheablePadding(None)),
                detach: false,
                notify: Notify::Removed,
            }
        } else {
            no_surface_effects(true)
        },
    }
}

/// On a live toplevel surface every request hands the object's new corners
/// to the surface as its pending corners (none after unset or destroy), and
/// touches no padding; setting notifies a change, unsetting and destroying a
/// removal, and only destroying detaches. On a dead surface nothing reaches
/// the surface or the handlers, and every request but destroy is an error.
pub proof fn lemma_toplevel_effects(request: ToplevelRequest, corners_after: Option<Corners>, alive: bool)
    ensures
        ({
            let e = toplevel_effects(request, corners_after, alive);
            &&& alive && request is SetRadius ==> e.pending_corners == Some(CacheableCorners(corners_after))
            &&& alive && !(request is SetRadius) ==> e.pending_corners == Some(CacheableCorners(None))
            &&& alive ==> e.pending_padding is None
            &&& !alive ==> e.pending_corners is None && e.pending_padding is None
            &&& e.surface_destroyed_error == (!alive && !(request is Destroy))
            &&& e.detach == (alive && request is Destroy)
            &&& e.notify == (if !alive {
                Notify::Silent
            } else if request is SetRadius {
                Notify::Changed
            } else {
                Notify::Removed
            })
        }),
{
}

/// On a live layer surface every radius request and destroy hands the
/// object's new corners to the surface as its pending corners, and every
/// padding request and destroy hands over its new padding; a radius request
/// leaves the pending padding alone and a padding request the pending corners.
/// Setting notifies a change, unsetting and destroying a removal, and only
/// destroying detaches. On a dead surface nothing reaches the surface or the
/// handlers, and every request but destroy is an error.
pub proof fn lemma_layer_effects(
    request: LayerRequest,
    corners_after: Option<Corners>,
    padding_after: Option<Padding>,
    alive: bool,
)
    requires
        request is Destroy ==> corners_after is None && padding_after is None,
        request is UnsetRadius ==> corners_after is None,
        request is UnsetPadding ==> padding_after is None,
    ensures
        ({
            let e = layer_effects(request, corners_after, padding_after, alive);
            &&& alive && !(request is SetPadding || request is UnsetPadding) ==> e.pending_corners
                == Some(CacheableCorners(corners_after))
            &&& alive && !(request is SetRadius || request is UnsetRadius) ==> e.pending_padding
                == Some(CacheablePadding(padding_after))
            &&& (request is SetPadding || request is UnsetPadding) ==> e.pending_corners is None
            &&& (request is SetRadius || request is UnsetRadius) ==> e.pending_padding is None
            &&& !alive ==> e.pending_corners is None && e.pending_padding is None
            &&& e.surface_destroyed_error == (!alive && !(request is Destroy))
            &&& e.detach == (alive && request is Destroy)
            &&& e.notify == (if !alive {
                Notify::Silent
            } else if request is SetRadius || request is SetPadding {
                Notify::Changed
            } else {
                Notify::Removed
            })
        }),
{
}

impl<S> CornerRadiusInternal<S> {
    /// A new object for `surface`, with no corners and no padding yet.
    pub fn new(surface: Option<S>) -> (r: Self)
        ensures
            r.surface == surface,
            r.corners is None,
            r.padding is None,
    {
        CornerRadiusInternal { surface, corners: None, padding: None }
    }

    /// Sets the object's corners from four requested radii, each cut to 255.
    pub fn set_corner_radius(
        &mut self,
        top_left: u32,
        top_right: u32,
        bottom_right: u32,
        bottom_left: u32,
    )
        ensures
            final(self).corners == Some(corners_of(top_left, top_right, bottom_right, bottom_left)),
            final(self).surface == old(self).surface,
            final(self).padding == old(self).padding,
    {
        let corners = Corners {
            top_left: clamp_radius(top_left),
            top_right: clamp_radius(top_right),
            bottom_right: clamp_radius(bottom_right),
            bottom_left: clamp_radius(bottom_left),
        };
        self.corners = Some(corners);
    }

    /// Handles a request to a toplevel's object. `alive` says whether the
    /// object's surface still exists.
    ///
    /// Every request first updates the object's corners; where the surface is
    /// gone, destroying is silent and the other requests are a protocol error.
    pub fn toplevel_request(&mut self, request: ToplevelRequest, alive: bool) -> (effects:
        RequestEffects)
        ensures
            final(self).corners == (match request {
                ToplevelRequest::SetRadius { top_left, top_right, bottom_right, bottom_left } =>
                    Some(corners_of(top_left, top_right, bottom_right, bottom_left)),
                _ => None,
            }),
            final(self).padding == old(self).padding,
            final(self).surface == old(self).surface,
            effects == toplevel_effects(request, final(self).corners, alive),
            alive ==> effects.pending_corners == Some(CacheableCorners(final(self).corners)),
            alive ==> effects.pending_padding is None,
            !alive ==> effects.pending_corners is None && effects.pending_padding is None,
            effects.surface_destroyed_error == (!alive && !(request is Destroy)),
            effects.detach == (alive && request is Destroy),
            effects.notify == (if !alive {
                Notify::Silent
            } else if request is SetRadius {
                Notify::Changed
            } else {
                Notify::Removed
            }),
    {
        proof {
            lemma_toplevel_effects(request, match request {
                ToplevelRequest::SetRadius { top_left, top_right, bottom_right, bottom_left } =>
                    Some(corners_of(top_left, top_right, bottom_right, bottom_left)),
                _ => None,
            }, alive);
        }
        match request {
            ToplevelRequest::Destroy => {
                self.corners = None;
                if !alive {
                    return no_surface();
                }
                RequestEffects {
                    surface_destroyed_error: false,
                    pending_corners: Some(CacheableCorners(None)),
                    pending_padding: None,
                    detach: true,
                    notify: Notify::Removed,
                }
            },
            ToplevelRequest::SetRadius { top_left, top_right, bottom_right, bottom_left } => {
                self.set_corner_radius(top_left, top_right, bottom_right, bottom_left);
                if !alive {
                    return surface_destroyed();
                }
                RequestEffects {
                    surface_destroyed_error: false,
                    pending_corners: Some(CacheableCorners(self.corners)),
                    pending_padding: None,
                    detach: false,
                    notify: Notify::Changed,
                }
            },
            ToplevelRequest::UnsetRadius => {
                self.corners = None;
                if !alive {
                    return surface_destroyed();
                }
                RequestEffects {
                    surface_destroyed_error: false,
                    pending_corners: Some(CacheableCorners(None)),
                    pending_padding: None,
                    detach: false,
                    notify: Notify::Removed,
                }
            },
        }
    }

    /// Handles a request to a layer surface's object. `alive` says whether
    /// the object's surface still exists.
    ///
    /// Every request first updates the object's corners or padding; where the
    /// surface is gone, destroying is silent and the other requests are a
    /// protocol error.
    pub fn layer_request(&mut self, request: LayerRequest, alive: bool) -> (effects:
        RequestEffects)
        ensures
            final(self).corners == (match request {
                LayerRequest::SetRadius { top_left, top_right, bottom_right, bottom_left } =>
                    Some(corners_of(top_left, top_right, bottom_right, bottom_left)),
                LayerRequest::SetPadding { .. } | LayerRequest::UnsetPadding => old(
                    self,
                ).corners,
                _ => None,
            }),
            final(self).padding == (match request {
                LayerRequest::SetPadding { top, right, bottom, left } => Some(
                    Padding { top, right, bottom, left },
                ),
                LayerRequest::Destroy | LayerRequest::UnsetPadding => None,
                _ => old(self).padding,
            }),
            final(self).surface == old(self).surface,
            effects == layer_effects(request, final(self).corners, final(self).padding, alive),
            alive && !(request is SetPadding || request is UnsetPadding)
                ==> effects.pending_corners == Some(CacheableCorners(final(self).corners)),
            alive && !(request is SetRadius || request is UnsetRadius)
                ==> effects.pending_padding == Some(CacheablePadding(final(self).padding)),
            (request is SetPadding || request is UnsetPadding) ==> effects.pending_corners is None,
            (request is SetRadius || request is UnsetRadius) ==> effects.pending_padding is None,
            !alive ==> effects.pending_corners is None && effects.pending_padding is None,
            effects.surface_destroyed_error == (!alive && !(request is Destroy)),
            effects.detach == (alive && request is Destroy),
            effects.notify == (if !alive {
                Notify::Silent
            } else if request is SetRadius || request is SetPadding {
                Notify::Changed
            } else {
                Notify::Removed
            }),
    {
        proof {
            let corners_after = match request {
                LayerRequest::SetRadius { top_left, top_right, bottom_right, bottom_left } =>
                    Some(corners_of(top_left, top_right, bottom_right, bottom_left)),
                LayerRequest::SetPadding { .. } | LayerRequest::UnsetPadding => self.corners,
                _ => None,
            };
            let padding_after = match request {
                LayerRequest::SetPadding { top, right, bottom, left } => Some(
                    Padding { top, right, bottom, left },
                ),
                LayerRequest::Destroy | LayerRequest::UnsetPadding => None,
                _ => self.padding,
            };
            lemma_layer_effects(request, corners_after, padding_after, alive);
        }
        match request {
            LayerRequest::Destroy => {
                self.corners = None;
                self.padding = None;
                if !alive {
                    return no_surface();
                }
                RequestEffects {
                    surface_destroyed_error: false,
                    pending_corners: Some(CacheableCorners(None)),
                    pending_padding: Some(CacheablePadding(None)),
                    detach: true,
                    notify: Notify::Removed,
                }
            },
            LayerRequest::SetRadius { top_left, top_right, bottom_right, bottom_left } => {
                self.set_corner_radius(top_left, top_right, bottom_right, bottom_left);
                if !alive {
                    return surface_destroyed();
                }
                RequestEffects {
                    surface_destroyed_error: false,
                    pending_corners: Some(CacheableCorners(self.corners)),
                    pending_padding: None,
                    detach: false,
                    notify: Notify::Changed,
                }
            },
            LayerRequest::UnsetRadius => {
                self.corners = None;
                if !alive {
                    return surface_destroyed();
                }
                RequestEffects {
                    surface_destroyed_error: false,
                    pending_corners: Some(CacheableCorners(None)),
                    pending_padding: None,
                    detach: false,
                    notify: Notify::Removed,
                }
            },
            LayerRequest::SetPadding { top, right, bottom, left } => {
                self.padding = Some(Padding { top, right, bottom, left });
                if !alive {
                    return surface_destroyed();
                }
                RequestEffects {
                    surface_destroyed_error: false,
                    pending_corners: None,
                    pending_padding: Some(CacheablePadding(self.padding)),
                    detach: false,
                    notify: Notify::Changed,
                }
            },
            LayerRequest::UnsetPadding => {
                self.padding = None;
                if !alive {
                    return surface_destroyed();
                }
                RequestEffects {
                    surface_destroyed_error: false,
                    pending_corners: None,
                    pending_padding: Some(CacheablePadding(None)),
                    detach: false,
                    notify: Notify::Removed,
                }
            },
        }
    }
}

fn no_surface() -> (r: RequestEffects)
    ensures
        r == no_surface_effects(false),
{
    RequestEffects {
        surface_destroyed_error: false,
        pending_corners: None,
        pending_padding: None,
        detach: false,
        notify: Notify::Silent,
    }
}

fn surface_destroyed() -> (r: RequestEffects)
    ensures
        r == no_surface_effects(true),
{
    RequestEffects {
        surface_destroyed_error: true,
        pending_corners: None,
        pending_padding: None,
        detach: false,
        notify: Notify::Silent,
    }
}

/// A request to the corner-radius manager.
#[derive(Clone, Copy, Debug, PartialEq, Eq, Structural)]
pub enum ManagerRequest {
    Destroy,
    /// An object for a toplevel.
    GetCornerRadius,
    /// An object for an `xdg_surface` with a toplevel or popup role.
    GetCornerRadiusSurface,
    /// An object for a layer surface.
    GetCornerRadiusLayer,
}

/// What the manager does with a request.
#[derive(Clone, Copy, Debug, PartialEq, Eq, Structural)]
pub enum ManagerAction {
    /// Forget this manager instance.
    DropInstance,
    /// Create an object for the toplevel or `xdg_surface`'s surface.
    CreateForToplevel,
    /// Create an object for the layer surface.
    CreateForLayer,
    /// Create an inert object: its target is unknown.
    Inert,
    /// Post the error that the `xdg_surface` has no role, and create an inert object.
    NoRoleInert,
}

/// Decides a manager request. `found` says whether its target surface is known.
pub fn manager_action(request: ManagerRequest, found: bool) -> (action: ManagerAction)
    ensures
        action == (match request {
            ManagerRequest::Destroy => ManagerAction::DropInstance,
            ManagerRequest::GetCornerRadius => if found {
                ManagerAction::CreateForToplevel
            } else {
                ManagerAction::Inert
            },
            ManagerRequest::GetCornerRadiusSurface => if found {
                ManagerAction::CreateForToplevel
            } else {
                ManagerAction::NoRoleInert
            },
            ManagerRequest::GetCornerRadiusLayer => if found {
                ManagerAction::CreateForLayer
            } else {
                ManagerAction::Inert
            },
        }),
{
    match request {
        ManagerRequest::Destroy => ManagerAction::DropInstance,
        ManagerRequest::GetCornerRadius => if found {
            ManagerAction::CreateForToplevel
        } else {
            ManagerAction::Inert
        },
        ManagerRequest::GetCornerRadiusSurface => if found {
            ManagerAction::CreateForToplevel
        } else {
            ManagerAction::NoRoleInert
        },
        ManagerRequest::GetCornerRadiusLayer => if found {
            ManagerAction::CreateForLayer
        } else {
            ManagerAction::Inert
        },
    }
}

/// Whether a surface may get a new corner-radius object, and what to clean up first.
#[derive(Clone, Copy, Debug, PartialEq, Eq, Structural)]
pub enum Creation {
    /// A live object already exists for the surface: post the error and
    /// create an inert object instead.
    AlreadyExists,
    /// Create the object; first remove the stale hook of a dead earlier object
    /// where `remove_stale_hook` says so.
    Create { remove_stale_hook: bool },
}

/// Decides the creation of a toplevel's object from the surface's earlier
/// hook: `None` where there is none, else whether its object is alive.
pub fn toplevel_creation(previous_hook: Option<bool>) -> (c: Creation)
    ensures
        c == toplevel_decision(previous_hook),
{
    match previous_hook {
        Some(true) => Creation::AlreadyExists,
        Some(false) => Creation::Create { remove_stale_hook: true },
        None => Creation::Create { remove_stale_hook: false },
    }
}

/// Decides the creation of a layer surface's object from whether the
/// surface's earlier object is alive.
pub fn layer_creation(previous_alive: bool) -> (c: Creation)
    ensures
        c == (if previous_alive {
            Creation::AlreadyExists
        } else {
            Creation::Create { remove_stale_hook: false }
        }),
{
    if previous_alive {
        Creation::AlreadyExists
    } else {
        Creation::Create { remove_stale_hook: false }
    }
}

/// How a toplevel's new object is decided from the surface's earlier hook:
/// `None` where there is none, else whether its object is alive.
pub open spec fn toplevel_decision(previous_hook: Option<bool>) -> Creation {
    match previous_hook {
        Some(true) => Creation::AlreadyExists,
        Some(false) => Creation::Create { remove_stale_hook: true },
        None => Creation::Create { remove_stale_hook: false },
    }
}

/// What claiming a slot that held `before` gives, where `previous_alive` says
/// whether the object of that hook lives: the decision, the stale hook handed
/// back (`r.1`), and what the slot holds afterwards (`after`).
pub open spec fn claim_outcome<H>(
    before: Option<H>,
    previous_alive: bool,
    r: (Creation, Option<H>),
    after: Option<H>,
) -> bool {
    &&& r.0 == toplevel_decision(
        if before is Some {
            Some(previous_alive)
        } else {
            None
        },
    )
    &&& r.0 is AlreadyExists ==> after == before && r.1 is None
    &&& r.0 is Create ==> after is None && r.1 == before
}

/// The slot of the surface model that a hook slot holding `hook` stands for,
/// where `alive` says whether the hook's object lives.
pub open spec fn slot_view<H>(hook: Option<H>, alive: bool) -> Option<bool> {
    match hook {
        Some(_) => Some(alive),
        None => None,
    }
}

/// The slot in a toplevel surface's data that holds the size-check hook of
/// its corner-radius object, kept with a handle on that object (`H`).
pub struct HookSlot<H> {
    hook: Option<H>,
}

impl<H> HookSlot<H> {
    /// The hook that the slot holds, if any.
    pub closed spec fn hook(&self) -> Option<H> {
        self.hook
    }

    /// An empty slot.
    pub fn new() -> (slot: Self)
        ensures
            slot.hook() is None,
    {
        HookSlot { hook: None }
    }

    /// The hook that the slot holds, for the caller to ask whether its object lives.
    pub fn current(&self) -> (r: Option<&H>)
        ensures
            r is Some <==> self.hook() is Some,
            r matches Some(h) ==> *h == self.hook().unwrap(),
    {
        match &self.hook {
            Some(h) => Some(h),
            None => None,
        }
    }

    /// Decides a new object for the surface. `previous_alive` says whether
    /// the object of the hook that the slot holds is alive. Where the object
    /// may be created, the slot is emptied and its stale hook handed back for
    /// removal; where a live object exists, nothing changes.
    pub fn claim(&mut self, previous_alive: bool) -> (r: (Creation, Option<H>))
        ensures
            claim_outcome(old(self).hook(), previous_alive, r, final(self).hook()),
    {
        let previous = match &self.hook {
            Some(_) => Some(previous_alive),
            None => None,
        };
        let decision = toplevel_creation(previous);
        match decision {
            Creation::AlreadyExists => (decision, None),
            Creation::Create { .. } => {
                let mut taken = None;
                std::mem::swap(&mut taken, &mut self.hook);
                (decision, taken)
            },
        }
    }

    /// Stores the hook of a newly created object, and hands back what the
    /// slot held before.
    pub fn install(&mut self, hook: H) -> (previous: Option<H>)
        ensures
            final(self).hook() == Some(hook),
            previous == old(self).hook(),
    {
        let mut previous = Some(hook);
        std::mem::swap(&mut previous, &mut self.hook);
        previous
    }

    /// Empties the slot when its object is destroyed, and hands back the hook
    /// for removal.
    pub fn release(&mut self) -> (hook: Option<H>)
        ensures
            hook == old(self).hook(),
            final(self).hook() is None,
    {
        let mut taken = None;
        std::mem::swap(&mut taken, &mut self.hook);
        taken
    }
}

/// What happens to a toplevel surface's corner-radius objects.
pub enum SurfaceEvent {
    /// The manager is asked for an object for the surface.
    CreateObject,
    /// The object in the surface's slot dies (its client destroys it or goes away).
    ObjectDies,
    /// The live object sends its destroy request while the surface lives.
    DestroyRequest,
}

/// A toplevel surface as the corner-radius protocol sees it: whether its slot
/// holds a hook, and whether that hook's object lives (`slot`); how many hooks
/// the protocol has added to the surface and not removed (`hooks`); how many
/// objects that are not inert refer to the surface and live (`live`).
pub struct SurfaceModel {
    pub slot: Option<bool>,
    pub hooks: nat,
    pub live: nat,
}

/// A surface that no corner-radius object has touched yet.
pub open spec fn untouched_surface() -> SurfaceModel {
    SurfaceModel { slot: None, hooks: 0, live: 0 }
}

/// What an event does: a creation is decided by `toplevel_decision` on the
/// slot (`HookSlot::claim`); an accepted one removes the stale hook that the
/// claim hands back, adds a hook and a live object (`HookSlot::install`); a
/// refused one makes an inert object. A destroy request empties the slot and
/// removes its hook (`HookSlot::release`).
pub open spec fn surface_step(state: SurfaceModel, event: SurfaceEvent) -> SurfaceModel {
    match event {
        SurfaceEvent::CreateObject => match toplevel_decision(state.slot) {
            Creation::AlreadyExists => state,
            Creation::Create { .. } => SurfaceModel {
                slot: Some(true),
                hooks: ((if state.slot is Some { state.hooks - 1 } else { state.hooks as int })
                    + 1) as nat,
                live: state.live + 1,
            },
        },
        SurfaceEvent::ObjectDies => if state.slot == Some(true) {
            SurfaceModel { slot: Some(false), hooks: state.hooks, live: (state.live - 1) as nat }
        } else {
            state
        },
        SurfaceEvent::DestroyRequest => if state.slot == Some(true) {
            SurfaceModel { slot: None, hooks: (state.hooks - 1) as nat, live: (state.live - 1) as nat }
        } else {
            state
        },
    }
}

/// The surface after a sequence of events.
pub open spec fn surface_after(events: Seq<SurfaceEvent>) -> SurfaceModel
    decreases events.len(),
{
    if events.len() == 0 {
        untouched_surface()
    } else {
        surface_step(surface_after(events.drop_last()), events.last())
    }
}

/// A creation as the caller makes it, `HookSlot::claim` on the surface's slot
/// (told whether the held hook's object lives), removal of the stale hook it
/// hands back, and, where the object is created, `HookSlot::install` of the
/// new hook, is the model's `CreateObject` step.
pub proof fn lemma_claim_install_is_create_step<H>(
    model: SurfaceModel,
    before: Option<H>,
    alive: bool,
    r: (Creation, Option<H>),
    claimed: Option<H>,
    new_hook: H,
)
    requires
        model.slot == slot_view(before, alive),
        model.hooks == (if model.slot is Some { 1nat } else { 0nat }),
        claim_outcome(before, alive, r, claimed),
    ensures
        ({
            let next = surface_step(model, SurfaceEvent::CreateObject);
            &&& r.0 is AlreadyExists ==> next == model && claimed == before
            &&& r.0 is Create ==> {
                &&& claimed is None
                &&& next.slot == slot_view(Some(new_hook), true)
                &&& next.hooks == model.hooks - (if r.1 is Some { 1int } else { 0int }) + 1
                &&& next.live == model.live + 1
            }
        }),
{
}

/// A destroy request as the caller handles it, `HookSlot::release` of the
/// slot that holds the live object's hook and removal of the hook it hands
/// back, is the model's `DestroyRequest` step.
pub proof fn lemma_release_is_destroy_step<H>(
    model: SurfaceModel,
    before: Option<H>,
    released: Option<H>,
    after: Option<H>,
)
    requires
        model.slot == slot_view(before, true),
        before is Some,
        model.hooks == 1,
        model.live == 1,
        released == before,
        after is None,
    ensures
        ({
            let next = surface_step(model, SurfaceEvent::DestroyRequest);
            &&& next.slot == slot_view(after, true)
            &&& next.hooks == model.hooks - 1
            &&& next.live == model.live - 1
        }),
{
}

/// The death of the object whose hook the slot holds is the model's
/// `ObjectDies` step: the slot keeps the hook, which is now stale.
pub proof fn lemma_death_is_dies_step<H>(model: SurfaceModel, hook: Option<H>)
    requires
        model.slot == slot_view(hook, true),
        hook is Some,
    ensures
        surface_step(model, SurfaceEvent::ObjectDies).slot == slot_view(hook, false),
        surface_step(model, SurfaceEvent::ObjectDies).hooks == model.hooks,
{
}

/// Whatever objects a client asks for and destroys, a toplevel surface has at
/// most one live corner-radius object that is not inert, and carries at most
/// one size-check hook added by the protocol: the one in its slot.
pub proof fn lemma_one_object_per_surface(events: Seq<SurfaceEvent>)
    ensures
        surface_after(events).live <= 1,
        surface_after(events).hooks <= 1,
        surface_after(events).hooks == (if surface_after(events).slot is Some { 1nat } else { 0nat }),
        surface_after(events).live == (if surface_after(events).slot == Some(true) { 1nat } else { 0nat }),
    decreases events.len(),
{
    if events.len() > 0 {
        lemma_one_object_per_surface(events.drop_last());
    }
}

/// Half a dimension, divided as `i32` division does: towards zero.
pub open spec fn half_towards_zero(m: int) -> int {
    if m >= 0 {
        m / 2
    } else {
        -((-m) / 2)
    }
}

/// The largest radius that a surface of size `width` x `height` accepts:
/// half its smaller side, or 255 where that does not fit in a `u8`.
pub open spec fn max_radius(width: i32, height: i32) -> int {
    let half = half_towards_zero(if width <= height { width as int } else { height as int });
    if 0 <= half <= 255 {
        half
    } else {
        255
    }
}

/// Whether committed `corners` are too large for a surface with the pending
/// window geometry size `geometry`: some corner exceeds `max_radius`. With no
/// geometry or no corners nothing is too large.
pub open spec fn radii_too_big(geometry: Option<(i32, i32)>, corners: Option<Corners>) -> bool {
    match (geometry, corners) {
        (Some((w, h)), Some(c)) => {
            let m = max_radius(w, h);
            c.top_right > m || c.top_left > m || c.bottom_right > m || c.bottom_left > m
        },
        _ => false,
    }
}

/// The four radii of `c`: top left, top right, bottom right, bottom left.
pub open spec fn corner_list(c: Corners) -> Seq<u8> {
    seq![c.top_left, c.top_right, c.bottom_right, c.bottom_left]
}

/// Corners are too large exactly when one of the four radii, whichever it
/// is, exceeds the largest radius that the geometry accepts; that largest
/// radius is half the smaller side, rounded down, for sides from 0 to 510.
pub proof fn lemma_too_big_is_some_corner(w: i32, h: i32, c: Corners)
    ensures
        radii_too_big(Some((w, h)), Some(c)) <==> exists|i: int|
            0 <= i < 4 && #[trigger] corner_list(c)[i] > max_radius(w, h),
        0 <= w <= 510 && 0 <= h <= 510 ==> max_radius(w, h) == (if w <= h { w } else { h }) / 2,
{
    let l = corner_list(c);
    let m = max_radius(w, h);
    assert(l[0] == c.top_left && l[1] == c.top_right && l[2] == c.bottom_right && l[3]
        == c.bottom_left);
    if radii_too_big(Some((w, h)), Some(c)) {
        if c.top_left > m {
            assert(l[0] > m);
        } else if c.top_right > m {
            assert(l[1] > m);
        } else if c.bottom_right > m {
            assert(l[2] > m);
        } else {
            assert(l[3] > m);
        }
    }
}

/// Checks, before a toplevel's commit, whether its pending corners are too
/// large for its pending window geometry of size `geometry` (width, height).
pub fn corner_radii_too_big(geometry: Option<(i32, i32)>, corners: Option<Corners>) -> (r: bool)
    ensures
        r == radii_too_big(geometry, corners),
        geometry is None || corners is None ==> !r,
        geometry matches Some((w, h)) ==> corners matches Some(c) ==> (r <==> exists|i: int|
            0 <= i < 4 && #[trigger] corner_list(c)[i] > max_radius(w, h)),
{
    proof {
        if let (Some((w, h)), Some(c)) = (geometry, corners) {
            lemma_too_big_is_some_corner(w, h, c);
        }
    }
    match (geometry, corners) {
        (Some((w, h)), Some(c)) => {
            let min_dim: i32 = if w <= h {
                w
            } else {
                h
            };
            let half: i32 = min_dim / 2;
            let half_min_dim: u8 = if 0 <= half && half <= 255 {
                half as u8
            } else {
                255
            };
            c.top_right > half_min_dim || c.top_left > half_min_dim || c.bottom_right
                > half_min_dim || c.bottom_left > half_min_dim
        },
        _ => false,
    }
}

/// The surface of the first entry of `entries` (role object, surface) whose
/// role object is `key`.
pub open spec fn first_match(entries: Seq<(u64, u64)>, key: u64) -> Option<u64>
    decreases entries.len(),
{
    if entries.len() == 0 {
        None
    } else if entries[0].0 == key {
        Some(entries[0].1)
    } else {
        first_match(entries.drop_first(), key)
    }
}

/// Whether `r` is what a lookup of `key` in `entries` finds: the surface of
/// the earliest entry with role object `key`, and nothing only where no entry
/// has it.
pub open spec fn finds_earliest(entries: Seq<(u64, u64)>, key: u64, r: Option<u64>) -> bool {
    &&& r is None <==> (forall|i: int| 0 <= i < entries.len() ==> #[trigger] entries[i].0 != key)
    &&& r matches Some(surface) ==> exists|i: int|
        0 <= i < entries.len() && #[trigger] entries[i] == (key, surface) && forall|j: int|
            0 <= j < i ==> #[trigger] entries[j].0 != key
}

/// A lookup finds any entry whose role object matches, whichever its place:
/// the earliest one, and nothing only where no entry matches.
pub proof fn lemma_first_match_finds_earliest(entries: Seq<(u64, u64)>, key: u64)
    ensures
        finds_earliest(entries, key, first_match(entries, key)),
    decreases entries.len(),
{
    if entries.len() > 0 {
        let rest = entries.drop_first();
        lemma_first_match_finds_earliest(rest, key);
        if entries[0].0 == key {
            assert(entries[0] == (key, entries[0].1));
        } else {
            assert forall|i: int| 0 <= i < rest.len() implies #[trigger] rest[i] == entries[i + 1] by {}
            match first_match(rest, key) {
                Some(surface) => {
                    let i = choose|i: int|
                        0 <= i < rest.len() && #[trigger] rest[i] == (key, surface) && forall|j: int|
                            0 <= j < i ==> #[trigger] rest[j].0 != key;
                    assert(entries[i + 1] == (key, surface));
                    assert forall|j: int| 0 <= j < i + 1 implies #[trigger] entries[j].0 != key by {
                        if j > 0 {
                            assert(entries[j] == rest[j - 1]);
                        }
                    }
                },
                None => {
                    assert forall|i: int| 0 <= i < entries.len() implies #[trigger] entries[i].0
                        != key by {
                        if i > 0 {
                            assert(entries[i] == rest[i - 1]);
                        }
                    }
                },
            }
        }
    }
}

/// Looks up, in order, the surface whose role object is `key`.
fn find_first(entries: &[(u64, u64)], key: u64) -> (r: Option<u64>)
    ensures
        r == first_match(entries@, key),
{
    let mut i: usize = 0;
    assert(entries@.skip(0) =~= entries@);
    while i < entries.len()
        invariant
            i <= entries@.len(),
            first_match(entries@, key) == first_match(entries@.skip(i as int), key),
        decreases entries@.len() - i,
    {
        let ghost rest = entries@.skip(i as int);
        assert(rest[0] == entries@[i as int]);
        if entries[i].0 == key {
            return Some(entries[i].1);
        }
        assert(rest.drop_first() =~= entries@.skip(i + 1));
        i = i + 1;
    }
    assert(entries@.skip(i as int).len() == 0);
    None
}

/// The surface of an `xdg_surface` with a role: the first toplevel whose
/// `xdg_surface` is `xdg_surface`, else the first such popup. Toplevels and
/// popups are given as (`xdg_surface`, surface) identifiers, in the shell's order.
pub fn role_surface(toplevels: &[(u64, u64)], popups: &[(u64, u64)], xdg_surface: u64) -> (r:
    Option<u64>)
    ensures
        r == (match first_match(toplevels@, xdg_surface) {
            Some(surface) => Some(surface),
            None => first_match(popups@, xdg_surface),
        }),
        (exists|i: int| 0 <= i < toplevels@.len() && #[trigger] toplevels@[i].0 == xdg_surface)
            ==> finds_earliest(toplevels@, xdg_surface, r),
        (forall|i: int| 0 <= i < toplevels@.len() ==> #[trigger] toplevels@[i].0 != xdg_surface)
            ==> finds_earliest(popups@, xdg_surface, r),
{
    proof {
        lemma_first_match_finds_earliest(toplevels@, xdg_surface);
        lemma_first_match_finds_earliest(popups@, xdg_surface);
    }
    match find_first(toplevels, xdg_surface) {
        Some(surface) => Some(surface),
        None => find_first(popups, xdg_surface),
    }
}

/// The surface of the first layer surface whose layer-shell object is
/// `layer`. Layer surfaces are given as (layer-shell object, surface)
/// identifiers, in the shell's order.
pub fn layer_surface(layers: &[(u64, u64)], layer: u64) -> (r: Option<u64>)
    ensures
        r == first_match(layers@, layer),
        finds_earliest(layers@, layer, r),
{
    proof {
        lemma_first_match_finds_earliest(layers@, layer);
    }
    find_first(layers, layer)
}

} // verus!
