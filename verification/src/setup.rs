//! Creating a renderer: the decisions between asking for an adapter, asking
//! for a device and building the renderer's state.

use vstd::prelude::*;
use crate::culling::CullingPass;
use crate::limits::DeviceLimits;
use crate::datatypes::RendererOptions;
use crate::instruction::StreamPairView;
use crate::renderer::{Renderer, RendererView, SceneView};

verus! {

/// Why no renderer could be created.
#[derive(Clone, Copy, Debug, PartialEq, Eq, Structural)]
pub enum RendererInitializationError {
    /// No adapter is compatible with the surface.
    MissingAdapter,
    /// The adapter reports subgroups of no invocations, which cannot cull.
    UnusableSubgroupSize,
    /// The adapter refused to open a device.
    RequestDeviceFailed,
}

/// What an adapter says of itself.
#[derive(Clone, Copy, Debug, PartialEq, Eq, Structural)]
pub struct AdapterReport {
    pub subgroup_size: u32,
    pub limits: DeviceLimits,
}

/// What to ask of the adapter once it answered: a device with the
/// adapter's own limits, if there is an adapter and it can cull.
pub fn choose_device(adapter: Option<AdapterReport>) -> (r: Result<
    AdapterReport,
    RendererInitializationError,
>)
    ensures
        r == match adapter {
            None => Err::<AdapterReport, RendererInitializationError>(
                RendererInitializationError::MissingAdapter,
            ),
            Some(report) => if report.subgroup_size == 0 {
                Err::<AdapterReport, RendererInitializationError>(
                    RendererInitializationError::UnusableSubgroupSize,
                )
            } else {
                Ok::<AdapterReport, RendererInitializationError>(report)
            },
        },
{
    match adapter {
        None => Err(RendererInitializationError::MissingAdapter),
        Some(report) => {
            if report.subgroup_size == 0 {
                Err(RendererInitializationError::UnusableSubgroupSize)
            } else {
                Ok(report)
            }
        },
    }
}

/// Builds the renderer once the device answered: with an empty scene,
/// nothing staged, and a culling pass for the device's subgroups.
pub fn create_renderer(device: AdapterReport, device_opened: bool, options: RendererOptions) -> (r:
    Result<Renderer, RendererInitializationError>)
    ensures
        !device_opened ==> r is Err && r->Err_0 == RendererInitializationError::RequestDeviceFailed,
        device_opened && device.subgroup_size == 0 ==> r is Err && r->Err_0
            == RendererInitializationError::UnusableSubgroupSize,
        device_opened && device.subgroup_size > 0 ==> r is Ok && r->Ok_0.wf() && r->Ok_0@
            == (RendererView {
            instructions: StreamPairView::empty(),
            scene: SceneView::empty(device.limits, options),
            subgroup_size: device.subgroup_size,
            limits: device.limits,
        }),
{
    if !device_opened {
        return Err(RendererInitializationError::RequestDeviceFailed);
    }
    match CullingPass::new(device.subgroup_size) {
        Ok(culling_pass) => Ok(Renderer::new(options, device.limits, culling_pass)),
        Err(_) => Err(RendererInitializationError::UnusableSubgroupSize),
    }
}

} // verus!
