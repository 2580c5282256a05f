use vstd::prelude::*;
use vstd::string::*;

use crate::services::LineVisibility;
use crate::text::{decimal, decimal_string};

verus! {

broadcast use vstd::string::group_string_axioms;

/// Fewest candles for which the WebGPU renderer is preferred.
pub const WEBGPU_THRESHOLD: usize = 500;

/// The renderer a frame goes to.
#[derive(Debug, Clone, Copy, PartialEq, Eq, Structural)]
pub enum RenderBackend {
    WebGpu,
    Canvas,
    /// No renderer is configured.
    Unavailable,
}

/// Choice between the WebGPU renderer (`W`) and the Canvas 2D one (`C`):
/// WebGPU for large series when it is supported and ready, Canvas otherwise.
pub struct RenderChartUseCase<C, W> {
    canvas_renderer: Option<C>,
    webgpu_renderer: Option<W>,
    webgpu_supported: bool,
    webgpu_threshold: usize,
}

/// The backend for `candle_count` candles.
pub open spec fn spec_backend(
    webgpu_supported: bool,
    threshold: usize,
    has_webgpu: bool,
    has_canvas: bool,
    candle_count: usize,
) -> RenderBackend {
    if webgpu_supported && candle_count >= threshold && has_webgpu {
        RenderBackend::WebGpu
    } else if has_canvas {
        RenderBackend::Canvas
    } else {
        RenderBackend::Unavailable
    }
}

/// `"true"` or `"false"`.
pub open spec fn bool_text(b: bool) -> Seq<char> {
    if b {
        "true"@
    } else {
        "false"@
    }
}

fn bool_str(b: bool) -> (r: &'static str)
    ensures
        r@ == bool_text(b),
{
    if b {
        "true"
    } else {
        "false"
    }
}

impl<C, W> RenderChartUseCase<C, W> {
    pub closed spec fn spec_canvas(&self) -> Option<C> {
        self.canvas_renderer
    }

    pub closed spec fn spec_webgpu(&self) -> Option<W> {
        self.webgpu_renderer
    }

    pub open spec fn has_canvas(&self) -> bool {
        self.spec_canvas() is Some
    }

    pub open spec fn has_webgpu(&self) -> bool {
        self.spec_webgpu() is Some
    }

    pub closed spec fn spec_supported(&self) -> bool {
        self.webgpu_supported
    }

    pub closed spec fn spec_threshold(&self) -> usize {
        self.webgpu_threshold
    }

    /// No renderer yet, WebGPU not known to be supported.
    pub fn new() -> (r: Self)
        ensures
            !r.has_canvas(),
            !r.has_webgpu(),
            !r.spec_supported(),
            r.spec_threshold() == WEBGPU_THRESHOLD,
    {
        RenderChartUseCase {
            canvas_renderer: None,
            webgpu_renderer: None,
            webgpu_supported: false,
            webgpu_threshold: WEBGPU_THRESHOLD,
        }
    }

    /// With a Canvas 2D renderer only.
    pub fn with_canvas_renderer(canvas: C) -> (r: Self)
        ensures
            r.spec_canvas() == Some(canvas),
            !r.has_webgpu(),
            !r.spec_supported(),
            r.spec_threshold() == WEBGPU_THRESHOLD,
    {
        RenderChartUseCase {
            canvas_renderer: Some(canvas),
            webgpu_renderer: None,
            webgpu_supported: false,
            webgpu_threshold: WEBGPU_THRESHOLD,
        }
    }

    /// With a Canvas 2D renderer and the outcome of setting up WebGPU: its
    /// renderer when it started; support is kept only if it did.
    pub fn with_adaptive_renderers(canvas: C, webgpu_supported: bool, webgpu: Option<W>) -> (r: Self)
        ensures
            r.spec_canvas() == Some(canvas),
            r.spec_webgpu() == (if webgpu_supported {
                webgpu
            } else {
                None
            }),
            r.spec_supported() == (webgpu_supported && webgpu is Some),
            r.spec_threshold() == WEBGPU_THRESHOLD,
    {
        let started = webgpu_supported && webgpu.is_some();
        RenderChartUseCase {
            canvas_renderer: Some(canvas),
            webgpu_renderer: if started {
                webgpu
            } else {
                None
            },
            webgpu_supported: started,
            webgpu_threshold: WEBGPU_THRESHOLD,
        }
    }

    /// Use `canvas` as the Canvas 2D renderer.
    pub fn set_renderer(&mut self, canvas: C)
        ensures
            final(self).spec_canvas() == Some(canvas),
            final(self).spec_webgpu() == old(self).spec_webgpu(),
            final(self).spec_supported() == old(self).spec_supported(),
            final(self).spec_threshold() == old(self).spec_threshold(),
    {
        self.canvas_renderer = Some(canvas);
    }

    /// The backend for a chart of `candle_count` candles: WebGPU when it is
    /// supported, set up, and the chart has at least the threshold of
    /// candles; else Canvas 2D if set up; else none.
    pub fn choose_backend(&self, candle_count: usize) -> (b: RenderBackend)
        ensures
            b == spec_backend(
                self.spec_supported(),
                self.spec_threshold(),
                self.has_webgpu(),
                self.has_canvas(),
                candle_count,
            ),
    {
        if self.webgpu_supported && candle_count >= self.webgpu_threshold && self.webgpu_renderer.is_some() {
            RenderBackend::WebGpu
        } else if self.canvas_renderer.is_some() {
            RenderBackend::Canvas
        } else {
            RenderBackend::Unavailable
        }
    }

    /// The WebGPU renderer, if set up.
    pub fn webgpu_renderer(&self) -> (r: Option<&W>)
        ensures
            r is Some == self.has_webgpu(),
            r matches Some(w) ==> Some(*w) == self.spec_webgpu(),
    {
        self.webgpu_renderer.as_ref()
    }

    /// The Canvas 2D renderer, if set up.
    pub fn canvas_renderer(&self) -> (r: Option<&C>)
        ensures
            r is Some == self.has_canvas(),
            r matches Some(c) ==> Some(*c) == self.spec_canvas(),
    {
        self.canvas_renderer.as_ref()
    }

    /// Prefer WebGPU for every chart, when it is supported.
    pub fn force_webgpu(&mut self)
        ensures
            final(self).spec_threshold() == if old(self).spec_supported() {
                0
            } else {
                old(self).spec_threshold()
            },
            final(self).spec_supported() == old(self).spec_supported(),
            final(self).spec_webgpu() == old(self).spec_webgpu(),
            final(self).spec_canvas() == old(self).spec_canvas(),
    {
        if self.webgpu_supported {
            self.webgpu_threshold = 0;
        }
    }

    /// Never prefer WebGPU.
    pub fn force_canvas(&mut self)
        ensures
            final(self).spec_threshold() == usize::MAX,
            final(self).spec_supported() == old(self).spec_supported(),
            final(self).spec_webgpu() == old(self).spec_webgpu(),
            final(self).spec_canvas() == old(self).spec_canvas(),
    {
        self.webgpu_threshold = usize::MAX;
    }

    /// A JSON summary: which renderers are set up, whether WebGPU is
    /// supported, and the threshold.
    pub fn get_renderer_info(&self) -> (r: String)
        ensures
            r@ == "{\"canvas_2d\":"@ + bool_text(self.has_canvas()) + ",\"webgpu\":"@ + bool_text(
                self.has_webgpu(),
            ) + ",\"webgpu_supported\":"@ + bool_text(self.spec_supported()) + ",\"threshold\":"@
                + decimal(self.spec_threshold() as nat) + ",\"adaptive\":true}"@,
    {
        let mut r = String::from_str("{\"canvas_2d\":");
        r.append(bool_str(self.canvas_renderer.is_some()));
        r.append(",\"webgpu\":");
        r.append(bool_str(self.webgpu_renderer.is_some()));
        r.append(",\"webgpu_supported\":");
        r.append(bool_str(self.webgpu_supported));
        r.append(",\"threshold\":");
        let t = decimal_string(self.webgpu_threshold as u64);
        r.append(t.as_str());
        r.append(",\"adaptive\":true}");
        r
    }
}

/// Whether the cached frame geometry must be built again before drawing:
/// when the number of candles, the zoom, the chart's data revision or the
/// visibility of the indicator lines changed since it was built. (A chart
/// without candles is not drawn at all.)
pub fn geometry_needs_update(
    candle_count: usize,
    cached_count: usize,
    zoom_changed: bool,
    revision: u64,
    cached_revision: u64,
    vis: LineVisibility,
    cached_vis: LineVisibility,
) -> (b: bool)
    ensures
        b == (candle_count != cached_count || zoom_changed || revision != cached_revision || vis
            != cached_vis),
{
    candle_count != cached_count || zoom_changed || revision != cached_revision || vis != cached_vis
}

/// Forcing Canvas 2D makes every chart go to Canvas when it is set up, and
/// forcing WebGPU (supported and set up) makes every chart go to WebGPU.
pub proof fn law_forced_backends(has_webgpu: bool, has_canvas: bool, candle_count: usize)
    ensures
        candle_count < usize::MAX && has_canvas ==> spec_backend(
            true,
            usize::MAX,
            has_webgpu,
            has_canvas,
            candle_count,
        ) == RenderBackend::Canvas,
        has_webgpu ==> spec_backend(true, 0, has_webgpu, has_canvas, candle_count)
            == RenderBackend::WebGpu,
{
}

} // verus!
