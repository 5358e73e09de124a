//! Rendering a single image: waiting for the splats, and the colours.

use vstd::prelude::*;

verus! {

/// What is reported while a source is loaded.
#[derive(Clone, Copy, Debug, PartialEq, Eq, Structural)]
pub enum LoadEvent {
    DoneLoading,
    StartLoading { training: bool },
    Warning,
    /// Loading failed.
    Failed,
    /// There is nothing more to report.
    End,
    Other,
}

/// What to do about it.
#[derive(Clone, Copy, Debug, PartialEq, Eq, Structural)]
pub enum LoadStep {
    /// Wait for the next report.
    Wait,
    /// Log the warning, then wait.
    Warn,
    /// Render what there is.
    Render,
    /// Give up with the error that loading failed with.
    Fail,
    /// Give up: a data set cannot be rendered.
    RejectDataset,
}

/// The text shown for a data set.
pub fn dataset_message() -> (r: &'static str)
    ensures
        r@
            == "--render-output expects a single .ply / .compressed.ply source, not a training dataset"@,
{
    "--render-output expects a single .ply / .compressed.ply source, not a training dataset"
}

/// The text shown where nothing was loaded.
pub fn no_splats_message() -> (r: &'static str)
    ensures
        r@ == "no splats were loaded from source"@,
{
    "no splats were loaded from source"
}

/// Once loading is over: without splats there is nothing to render.
pub fn check_loaded(has_splats: bool) -> (r: Result<(), &'static str>)
    ensures
        r.is_ok() == has_splats,
        r matches Err(message) ==> message@ == "no splats were loaded from source"@,
{
    if has_splats {
        Ok(())
    } else {
        Err(no_splats_message())
    }
}

pub open spec fn load_step(event: LoadEvent) -> LoadStep {
    match event {
        LoadEvent::DoneLoading => LoadStep::Render,
        LoadEvent::StartLoading { training } => if training {
            LoadStep::RejectDataset
        } else {
            LoadStep::Wait
        },
        LoadEvent::Warning => LoadStep::Warn,
        LoadEvent::Failed => LoadStep::Fail,
        LoadEvent::End => LoadStep::Render,
        LoadEvent::Other => LoadStep::Wait,
    }
}

/// Decide what to do about a report.
pub fn on_load_event(event: LoadEvent) -> (r: LoadStep)
    ensures
        r == load_step(event),
{
    match event {
        LoadEvent::DoneLoading => LoadStep::Render,
        LoadEvent::StartLoading { training } => {
            if training {
                LoadStep::RejectDataset
            } else {
                LoadStep::Wait
            }
        },
        LoadEvent::Warning => LoadStep::Warn,
        LoadEvent::Failed => LoadStep::Fail,
        LoadEvent::End => LoadStep::Render,
        LoadEvent::Other => LoadStep::Wait,
    }
}

/// Drop the fourth channel of each pixel.
pub fn drop_alpha<T: Copy>(rgba: &Vec<T>) -> (r: Vec<T>)
    ensures
        r@.len() == rgba@.len() / 4 * 3,
        forall|i: int, c: int|
            0 <= i < rgba@.len() / 4 && 0 <= c < 3 ==> #[trigger] r@[i * 3 + c] == rgba@[i * 4 + c],
{
    let n: usize = rgba.len() / 4;
    let mut out: Vec<T> = Vec::new();
    let mut i: usize = 0;
    while i < n
        invariant
            i <= n,
            n == rgba@.len() / 4,
            out@.len() == i * 3,
            forall|k: int, c: int|
                0 <= k < i && 0 <= c < 3 ==> #[trigger] out@[k * 3 + c] == rgba@[k * 4 + c],
        decreases n - i,
    {
        let ghost before = out@;
        assert(rgba@.len() == rgba.len());
        out.push(rgba[i * 4]);
        out.push(rgba[i * 4 + 1]);
        out.push(rgba[i * 4 + 2]);
        assert forall|k: int, c: int| 0 <= k < i + 1 && 0 <= c < 3 implies #[trigger] out@[k * 3
            + c] == rgba@[k * 4 + c] by {
            if k < i {
                assert(out@[k * 3 + c] == before[k * 3 + c]);
            }
        }
        i = i + 1;
    }
    out
}

} // verus!
