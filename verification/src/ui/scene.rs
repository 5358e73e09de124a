//! The state of the panel that shows the scene.

use crate::arith::{computes, total, Arith, Op, Vec3, ZERO};
use crate::single::{single, Single};
use crate::text::{decimal, push_decimal, trim, trimmed};
use crate::ui::error_display::ErrorDisplay;
use crate::ui::mode::UiMode;
use crate::ui::update_mode::RenderUpdateMode;
use vstd::prelude::*;
use vstd::string::{StrSliceExecFns, StringExecFns};

verus! {

/// Frames of a sequence that are played in a second, 30.
pub const FRAME_RATE: u32 = 0x41f0_0000;

/// The panel that shows the scene. `D` is what is kept of a data set.
pub struct ScenePanel<D> {
    /// When the panel was last drawn, in nanoseconds of the caller's clock.
    pub last_draw: Option<u64>,
    pub has_splats: bool,
    pub splats_dirty: bool,
    /// Current frame of a sequence, with a fraction.
    pub frame: Single,
    /// Number of frames of the sequence.
    pub frame_count: u32,
    pub paused: bool,
    pub err: Option<ErrorDisplay>,
    pub warnings: Vec<ErrorDisplay>,
    /// How many warnings the user has seen.
    pub seen_warning_count: usize,
    pub source_name: Option<String>,
    pub source_type: Option<String>,
    pub url: String,
    pub show_url_dialog: bool,
    pub render_update_mode: RenderUpdateMode,
    /// The iteration that was drawn last.
    pub last_rendered_iter: u32,
    /// Where the settings of a training are kept.
    pub base_path: Option<String>,
    pub dataset: Option<D>,
    /// How far the bars around a reference pose are faded in.
    pub pose_match_alpha: Single,
    /// Whether to ask before a training is thrown away.
    pub show_reset_confirm: bool,
}

/// The panel as contracts see it.
#[verifier::ext_equal]
pub struct SceneView<D> {
    pub last_draw: Option<u64>,
    pub has_splats: bool,
    pub splats_dirty: bool,
    pub frame: Single,
    pub frame_count: u32,
    pub paused: bool,
    pub err: Option<(Seq<char>, Seq<Seq<char>>)>,
    pub warnings: Seq<(Seq<char>, Seq<Seq<char>>)>,
    pub seen_warning_count: usize,
    pub source_name: Option<Seq<char>>,
    pub source_type: Option<Seq<char>>,
    pub url: Seq<char>,
    pub show_url_dialog: bool,
    pub render_update_mode: RenderUpdateMode,
    pub last_rendered_iter: u32,
    pub base_path: Option<Seq<char>>,
    pub dataset: Option<D>,
    pub pose_match_alpha: Single,
    pub show_reset_confirm: bool,
}

pub open spec fn text_view(text: Option<String>) -> Option<Seq<char>> {
    match text {
        Some(s) => Some(s@),
        None => None,
    }
}

pub open spec fn error_view(error: Option<ErrorDisplay>) -> Option<(Seq<char>, Seq<Seq<char>>)> {
    match error {
        Some(e) => Some(e@),
        None => None,
    }
}

pub open spec fn error_views(errors: Seq<ErrorDisplay>) -> Seq<(Seq<char>, Seq<Seq<char>>)> {
    errors.map_values(|e: ErrorDisplay| e@)
}

impl<D> View for ScenePanel<D> {
    type V = SceneView<D>;

    open spec fn view(&self) -> SceneView<D> {
        SceneView {
            last_draw: self.last_draw,
            has_splats: self.has_splats,
            splats_dirty: self.splats_dirty,
            frame: self.frame,
            frame_count: self.frame_count,
            paused: self.paused,
            err: error_view(self.err),
            warnings: error_views(self.warnings@),
            seen_warning_count: self.seen_warning_count,
            source_name: text_view(self.source_name),
            source_type: text_view(self.source_type),
            url: self.url@,
            show_url_dialog: self.show_url_dialog,
            render_update_mode: self.render_update_mode,
            last_rendered_iter: self.last_rendered_iter,
            base_path: text_view(self.base_path),
            dataset: self.dataset,
            pose_match_alpha: self.pose_match_alpha,
            show_reset_confirm: self.show_reset_confirm,
        }
    }
}

/// What the panel is told.
pub enum SceneMessage<D> {
    NewProcess,
    StartLoading { name: String, source: String, training: bool, base_path: Option<String> },
    SplatsUpdated { up_axis: Option<Vec3>, frame: u32, total_frames: u32 },
    Warning { error: ErrorDisplay },
    TrainConfig { background: Vec3 },
    Dataset { dataset: D },
    Other,
}

/// What the panel asks for in turn.
#[derive(Clone, Copy, Debug, PartialEq, Eq, Structural)]
pub struct SceneRequest {
    /// Turn the model so that this axis points up.
    pub model_up: Option<Vec3>,
    /// Set the background of the camera.
    pub background: Option<Vec3>,
}

/// What the button for a new scene does.
#[derive(Clone, Copy, Debug, PartialEq, Eq, Structural)]
pub enum NewPressed {
    /// Ask first: there is a training.
    Confirm,
    /// Start over.
    Reset,
}

/// Enough iterations have passed to draw again.
pub open spec fn due(mode: RenderUpdateMode, last: u32, iter: u32) -> bool {
    match mode.interval() {
        Some(interval) => iter >= last + interval || last == 0,
        None => false,
    }
}

impl<D> SceneView<D> {
    /// Without anything loaded. The error, the names, the address, the mode of
    /// drawing and what the user is asked stay.
    pub open spec fn cleared(self) -> SceneView<D> {
        SceneView {
            last_draw: None,
            has_splats: false,
            splats_dirty: false,
            frame: single(ZERO),
            frame_count: 0,
            paused: false,
            last_rendered_iter: 0,
            warnings: Seq::empty(),
            seen_warning_count: 0,
            dataset: None,
            pose_match_alpha: single(ZERO),
            ..self
        }
    }

    /// After new splats. `shown_frame` is the frame as a single.
    pub open spec fn after_splats(
        self,
        frame: u32,
        shown_frame: Single,
        total_frames: u32,
        training: bool,
        iter: u32,
    ) -> SceneView<D> {
        let here = SceneView { has_splats: true, frame_count: total_frames, ..self };
        if !training {
            SceneView {
                splats_dirty: true,
                frame: if total_frames <= 1 || frame < total_frames - 1 {
                    shown_frame
                } else {
                    self.frame
                },
                ..here
            }
        } else if due(self.render_update_mode, self.last_rendered_iter, iter) {
            SceneView { last_rendered_iter: iter, splats_dirty: true, ..here }
        } else {
            here
        }
    }

    /// After a message, while there is or is no training at `iter`.
    pub open spec fn after(
        self,
        g: Arith,
        message: SceneMessage<D>,
        training: bool,
        iter: u32,
    ) -> SceneView<D> {
        match message {
            SceneMessage::NewProcess => SceneView {
                err: None,
                source_name: None,
                source_type: None,
                ..self.cleared()
            },
            SceneMessage::StartLoading { name, source, training: trains, base_path } => {
                let here = if trains {
                    self.cleared()
                } else {
                    self
                };
                SceneView {
                    source_name: Some(name@),
                    source_type: Some(source@),
                    base_path: text_view(base_path),
                    ..here
                }
            },
            SceneMessage::SplatsUpdated { up_axis, frame, total_frames } => self.after_splats(
                frame,
                g(Op::FromInt(frame as i64)),
                total_frames,
                training,
                iter,
            ),
            SceneMessage::Warning { error } => SceneView {
                warnings: self.warnings.push(error@),
                ..self
            },
            SceneMessage::TrainConfig { background } => self,
            SceneMessage::Dataset { dataset } => SceneView { dataset: Some(dataset), ..self },
            SceneMessage::Other => self,
        }
    }
}

/// What a message makes the panel ask for.
pub open spec fn request_for<D>(message: SceneMessage<D>, training: bool) -> SceneRequest {
    match message {
        SceneMessage::SplatsUpdated { up_axis, .. } => SceneRequest {
            model_up: if training {
                None
            } else {
                up_axis
            },
            background: None,
        },
        SceneMessage::TrainConfig { background } => SceneRequest {
            model_up: None,
            background: Some(background),
        },
        _ => SceneRequest { model_up: None, background: None },
    }
}

impl<D> ScenePanel<D> {
    /// A panel without a scene.
    pub fn new() -> (r: ScenePanel<D>)
        ensures
            r@ == (SceneView::<D> {
                last_draw: None,
                has_splats: false,
                splats_dirty: false,
                frame: single(ZERO),
                frame_count: 0,
                paused: false,
                err: None,
                warnings: Seq::empty(),
                seen_warning_count: 0,
                source_name: None,
                source_type: None,
                url: Seq::empty(),
                show_url_dialog: false,
                render_update_mode: RenderUpdateMode::Live,
                last_rendered_iter: 0,
                base_path: None,
                dataset: None,
                pose_match_alpha: single(ZERO),
                show_reset_confirm: false,
            }),
    {
        let r: ScenePanel<D> = ScenePanel {
            last_draw: None,
            has_splats: false,
            splats_dirty: false,
            frame: single(ZERO),
            frame_count: 0,
            paused: false,
            err: None,
            warnings: Vec::new(),
            seen_warning_count: 0,
            source_name: None,
            source_type: None,
            url: String::new(),
            show_url_dialog: false,
            render_update_mode: RenderUpdateMode::Live,
            last_rendered_iter: 0,
            base_path: None,
            dataset: None,
            pose_match_alpha: single(ZERO),
            show_reset_confirm: false,
        };
        assert(r@.warnings =~= Seq::empty());
        assert(r@.url =~= Seq::<char>::empty());
        r
    }

    /// Forget what is loaded.
    pub fn reset(&mut self)
        ensures
            final(self)@ == old(self)@.cleared(),
    {
        let ghost before = self@;
        self.last_draw = None;
        self.has_splats = false;
        self.splats_dirty = false;
        self.frame = single(ZERO);
        self.frame_count = 0;
        self.paused = false;
        self.last_rendered_iter = 0;
        self.warnings = Vec::new();
        self.seen_warning_count = 0;
        self.dataset = None;
        self.pose_match_alpha = single(ZERO);
        assert(self@ =~= before.cleared());
    }

    /// Take a message in. `training` and `iter` tell how the training stands.
    pub fn on_message<F: Fn(Op) -> Single>(
        &mut self,
        f: &F,
        message: SceneMessage<D>,
        training: bool,
        iter: u32,
    ) -> (r: SceneRequest)
        requires
            total(*f),
        ensures
            r == request_for(message, training),
            forall|g: Arith| #[trigger]
                computes(*f, g) ==> final(self)@ == old(self)@.after(g, message, training, iter),
    {
        let ghost before = self@;
        let mut request: SceneRequest = SceneRequest { model_up: None, background: None };
        match message {
            SceneMessage::NewProcess => {
                self.err = None;
                self.source_name = None;
                self.source_type = None;
                self.reset();
            },
            SceneMessage::StartLoading { name, source, training: trains, base_path } => {
                if trains {
                    self.reset();
                }
                self.source_name = Some(name);
                self.source_type = Some(source);
                self.base_path = base_path;
            },
            SceneMessage::SplatsUpdated { up_axis, frame, total_frames } => {
                self.has_splats = true;
                self.frame_count = total_frames;
                if !training {
                    self.splats_dirty = true;
                    request.model_up = up_axis;
                    if total_frames <= 1 || frame < total_frames - 1 {
                        self.frame = f(Op::FromInt(frame as i64));
                    }
                } else {
                    match self.render_update_mode.update_interval() {
                        Some(interval) => {
                            if iter as u64 >= self.last_rendered_iter as u64 + interval as u64
                                || self.last_rendered_iter == 0 {
                                self.last_rendered_iter = iter;
                                self.splats_dirty = true;
                            }
                        },
                        None => {},
                    }
                }
            },
            SceneMessage::Warning { error } => {
                let ghost warnings = self.warnings@;
                self.warnings.push(error);
                assert(error_views(self.warnings@) =~= error_views(warnings).push(error@));
            },
            SceneMessage::TrainConfig { background } => {
                request.background = Some(background);
            },
            SceneMessage::Dataset { dataset } => {
                self.dataset = Some(dataset);
            },
            SceneMessage::Other => {},
        }
        assert forall|g: Arith| #[trigger] computes(*f, g) implies self@ == before.after(
            g,
            message,
            training,
            iter,
        ) by {
            assert(self@ =~= before.after(g, message, training, iter));
        }
        request
    }

    /// Take an error in.
    pub fn on_error(&mut self, error: ErrorDisplay)
        ensures
            final(self)@ == (SceneView { err: Some(error@), ..old(self)@ }),
    {
        let ghost before = self@;
        self.err = Some(error);
        assert(self@ =~= SceneView { err: Some(error@), ..before });
    }

    /// Begin a drawing at `now`. Gives the nanoseconds since the last one, if
    /// there was one.
    pub fn begin_draw(&mut self, now: u64) -> (r: Option<u64>)
        ensures
            final(self)@ == (SceneView { last_draw: Some(now), ..old(self)@ }),
            r == match old(self)@.last_draw {
                Some(last) => Some(
                    if now >= last {
                        (now - last) as u64
                    } else {
                        0
                    },
                ),
                None => None,
            },
    {
        let ghost before = self@;
        let since: Option<u64> = match self.last_draw {
            Some(last) => Some(
                if now >= last {
                    now - last
                } else {
                    0
                },
            ),
            None => None,
        };
        self.last_draw = Some(now);
        assert(self@ =~= SceneView { last_draw: Some(now), ..before });
        since
    }

    /// Whether to show how to load a scene in place of the scene.
    pub fn show_welcome(&self, training: bool, mode: UiMode) -> (r: bool)
        ensures
            r == (!training && !self@.has_splats && mode != UiMode::EmbeddedViewer),
    {
        !training && !self.has_splats && mode != UiMode::EmbeddedViewer
    }

    /// Play the sequence on by `delta` seconds. Tells whether it goes on.
    pub fn advance_frame<F: Fn(Op) -> Single>(&mut self, f: &F, delta: Single) -> (r: bool)
        requires
            total(*f),
        ensures
            r == old(self)@.playing(),
            !r ==> final(self)@ == old(self)@,
            r ==> forall|g: Arith| #[trigger]
                computes(*f, g) ==> final(self)@ == (SceneView {
                    frame: next_frame(g, old(self)@.frame, delta, old(self)@.frame_count),
                    ..old(self)@
                }),
    {
        let ghost before = self@;
        if !(self.frame_count > 1 && !self.paused) {
            return false;
        }
        let step: Single = f(Op::Mul(delta, single(FRAME_RATE)));
        self.frame = f(Op::Add(self.frame, step));
        let count: Single = f(Op::FromInt(self.frame_count as i64));
        if self.frame.ge(count) {
            self.frame = single(ZERO);
        }
        assert forall|g: Arith| #[trigger] computes(*f, g) implies self@ == (SceneView {
            frame: next_frame(g, before.frame, delta, before.frame_count),
            ..before
        }) by {
            assert(self@ =~= (SceneView {
                frame: next_frame(g, before.frame, delta, before.frame_count),
                ..before
            }));
        }
        true
    }

    /// Whether there is a button to pause the sequence.
    pub fn shows_play_pause(&self, mode: UiMode) -> (r: bool)
        ensures
            r == (mode.interactive() && self@.frame_count > 1),
    {
        mode.is_interactive() && self.frame_count > 1
    }

    /// Pause the sequence, or play it on.
    pub fn toggle_paused(&mut self)
        ensures
            final(self)@ == (SceneView { paused: !old(self)@.paused, ..old(self)@ }),
    {
        let ghost before = self@;
        self.paused = !self.paused;
        assert(self@ =~= SceneView { paused: !before.paused, ..before });
    }

    /// Whether the splats have changed since this was last asked.
    pub fn take_dirty(&mut self) -> (r: bool)
        ensures
            r == old(self)@.splats_dirty,
            final(self)@ == (SceneView { splats_dirty: false, ..old(self)@ }),
    {
        let ghost before = self@;
        let dirty: bool = self.splats_dirty;
        self.splats_dirty = false;
        assert(self@ =~= SceneView { splats_dirty: false, ..before });
        dirty
    }

    /// The title of the tab, and what stands beside it in grey.
    pub fn title(&self) -> (r: (String, Option<String>))
        ensures
            r.0@ == match self@.source_name {
                Some(name) => name,
                None => "Scene"@,
            },
            text_view(r.1) == match (self@.source_type, self@.source_name) {
                (Some(source), Some(_)) => Some("  |  "@ + source),
                _ => None,
            },
    {
        match &self.source_name {
            Some(name) => match &self.source_type {
                Some(source) => {
                    let mut beside: String = String::from_str("  |  ");
                    beside.append(source.as_str());
                    (name.clone(), Some(beside))
                },
                None => (name.clone(), None),
            },
            None => (String::from_str("Scene"), None),
        }
    }

    /// Whether there is something to throw away.
    pub fn has_content(&self, training: bool) -> (r: bool)
        ensures
            r == (self@.has_splats || training),
    {
        self.has_splats || training
    }

    /// The button for a new scene was pressed.
    pub fn press_new(&mut self, training: bool) -> (r: NewPressed)
        ensures
            r == if training {
                NewPressed::Confirm
            } else {
                NewPressed::Reset
            },
            final(self)@ == (SceneView {
                show_reset_confirm: training || old(self)@.show_reset_confirm,
                ..old(self)@
            }),
    {
        let ghost before = self@;
        let r: NewPressed = if training {
            self.show_reset_confirm = true;
            NewPressed::Confirm
        } else {
            NewPressed::Reset
        };
        assert(self@ =~= SceneView {
            show_reset_confirm: training || before.show_reset_confirm,
            ..before
        });
        r
    }

    /// The question whether to throw a training away was answered.
    pub fn answer_confirm(&mut self)
        ensures
            final(self)@ == (SceneView { show_reset_confirm: false, ..old(self)@ }),
    {
        let ghost before = self@;
        self.show_reset_confirm = false;
        assert(self@ =~= SceneView { show_reset_confirm: false, ..before });
    }

    /// The slider for the mode of drawing was moved.
    pub fn slide_update_mode(&mut self, index: usize)
        ensures
            final(self)@.render_update_mode.index() == if index < 2 {
                index as int
            } else {
                2
            },
            final(self)@ == (SceneView {
                render_update_mode: final(self)@.render_update_mode,
                ..old(self)@
            }),
    {
        let ghost before = self@;
        if index != self.render_update_mode.to_index() {
            self.render_update_mode = RenderUpdateMode::from_index(index);
        }
        assert(self@ =~= SceneView { render_update_mode: self@.render_update_mode, ..before });
    }

    /// Whether to show the settings of a training.
    pub fn shows_settings(loading: bool, training: bool) -> (r: bool)
        ensures
            r == (loading && training),
    {
        loading && training
    }
}

/// The frame after `delta` seconds; the sequence starts over at its end.
pub open spec fn next_frame(g: Arith, frame: Single, delta: Single, count: u32) -> Single {
    let moved = g(Op::Add(frame, g(Op::Mul(delta, single(FRAME_RATE)))));
    if g(Op::FromInt(count as i64)).at_most(moved) {
        single(ZERO)
    } else {
        moved
    }
}

impl<D> SceneView<D> {
    /// A sequence is played.
    pub open spec fn playing(self) -> bool {
        self.frame_count > 1 && !self.paused
    }

    /// Warnings that the user has not seen.
    pub open spec fn unseen(self) -> int {
        if self.warnings.len() > self.seen_warning_count {
            self.warnings.len() - self.seen_warning_count
        } else {
            0
        }
    }
}

/// The button for warnings.
#[derive(Debug)]
pub struct WarningButton {
    pub label: String,
    pub hover: String,
    /// There are warnings that the user has not seen: the button stands out and
    /// the list opens by itself.
    pub has_unseen: bool,
}

impl<D> ScenePanel<D> {
    fn unseen_count(&self) -> (r: usize)
        ensures
            r == self@.unseen(),
    {
        if self.warnings.len() > self.seen_warning_count {
            self.warnings.len() - self.seen_warning_count
        } else {
            0
        }
    }

    /// The button for warnings, if there are any.
    pub fn warning_button(&self) -> (r: Option<WarningButton>)
        ensures
            match r {
                Some(button) => {
                    &&& self@.warnings.len() > 0
                    &&& button.label@ == "⚠ "@ + decimal(self@.warnings.len())
                    &&& button.has_unseen == (self@.unseen() > 0)
                    &&& button.hover@ == if self@.unseen() > 0 {
                        decimal(self@.unseen() as nat) + " new warning(s)"@
                    } else {
                        "View warnings"@
                    }
                },
                None => self@.warnings.len() == 0,
            },
    {
        if self.warnings.len() == 0 {
            return None;
        }
        let unseen: usize = self.unseen_count();
        let mut label: String = String::from_str("⚠ ");
        push_decimal(&mut label, self.warnings.len() as u64);
        let hover: String = if unseen > 0 {
            let mut text: String = String::new();
            push_decimal(&mut text, unseen as u64);
            text.append(" new warning(s)");
            assert(text@ =~= decimal(unseen as nat) + " new warning(s)"@);
            text
        } else {
            String::from_str("View warnings")
        };
        Some(WarningButton { label, hover, has_unseen: unseen > 0 })
    }

    /// The heading of the list of warnings.
    pub fn warnings_heading(&self) -> (r: String)
        ensures
            r@ == "Warnings ("@ + decimal(self@.warnings.len()) + ")"@,
    {
        let mut text: String = String::from_str("Warnings (");
        push_decimal(&mut text, self.warnings.len() as u64);
        text.append(")");
        text
    }

    /// Whether a warning in the list is new to the user.
    pub fn is_new_warning(&self, index: usize) -> (r: bool)
        ensures
            r == (index >= self@.seen_warning_count),
    {
        index >= self.seen_warning_count
    }

    /// The list of warnings was shown. Once it closes all warnings are seen.
    pub fn warnings_shown(&mut self, was_open: bool, is_open: bool)
        ensures
            final(self)@ == (SceneView {
                seen_warning_count: if was_open && !is_open {
                    old(self).warnings.len()
                } else {
                    old(self)@.seen_warning_count
                },
                ..old(self)@
            }),
    {
        let ghost before = self@;
        let ghost seen = if was_open && !is_open {
            self.warnings.len()
        } else {
            self.seen_warning_count
        };
        if was_open && !is_open {
            self.seen_warning_count = self.warnings.len();
        }
        assert(self@ =~= SceneView { seen_warning_count: seen, ..before });
    }

    /// Forget all warnings.
    pub fn clear_warnings(&mut self)
        ensures
            final(self)@ == (SceneView {
                warnings: Seq::empty(),
                seen_warning_count: 0,
                ..old(self)@
            }),
    {
        let ghost before = self@;
        self.warnings = Vec::new();
        self.seen_warning_count = 0;
        assert(self@ =~= SceneView { warnings: Seq::empty(), seen_warning_count: 0, ..before });
    }

    /// Open the dialog for an address.
    pub fn open_url_dialog(&mut self)
        ensures
            final(self)@ == (SceneView { show_url_dialog: true, ..old(self)@ }),
    {
        let ghost before = self@;
        self.show_url_dialog = true;
        assert(self@ =~= SceneView { show_url_dialog: true, ..before });
    }

    /// Close the dialog for an address.
    pub fn close_url_dialog(&mut self)
        ensures
            final(self)@ == (SceneView { show_url_dialog: false, ..old(self)@ }),
    {
        let ghost before = self@;
        self.show_url_dialog = false;
        assert(self@ =~= SceneView { show_url_dialog: false, ..before });
    }

    /// The address is to be loaded. A blank one is not, and the dialog stays.
    pub fn accept_url(&mut self) -> (r: Option<String>)
        ensures
            match r {
                Some(url) => {
                    &&& trimmed(old(self)@.url).len() > 0
                    &&& url@ == old(self)@.url
                    &&& final(self)@ == (SceneView { show_url_dialog: false, ..old(self)@ })
                },
                None => trimmed(old(self)@.url).len() == 0 && final(self)@ == old(self)@,
            },
    {
        if trim(self.url.as_str()).unicode_len() == 0 {
            None
        } else {
            let url: String = self.url.clone();
            self.close_url_dialog();
            Some(url)
        }
    }
}

} // verus!
