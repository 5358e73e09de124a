//! Progress of a training on the terminal.

use crate::cli::duration::{
    debug_seconds, debugged_duration, duration_text, format_seconds,
};
use crate::text::{decimal, push_decimal};
use vstd::prelude::*;
use vstd::string::StringExecFns;

verus! {

/// What a training reports. Numbers with a fraction come as text.
#[derive(Debug)]
pub enum ProgressEvent {
    NewProcess,
    StartLoading { name: String, training: bool },
    SplatsUpdated,
    TrainConfig,
    Dataset { train_views: u64, eval_views: u64 },
    TrainStep { iter: u32, elapsed_secs: u64, lod: Option<(u32, u32)> },
    RefineStep { cur_splat_count: u32, iter: u32 },
    EvalResult { iter: u32, psnr: String, ssim: String },
    DoneTraining,
    DoneLoading,
    Warning { error: String },
    /// The training failed.
    Failed,
}

/// Where something is shown.
#[derive(Clone, Copy, Debug, PartialEq, Eq, Structural)]
pub enum Place {
    /// The line that tells what goes on.
    Main,
    /// The line of statistics.
    Stats,
    /// The line of evaluations.
    Eval,
    /// Take the line of evaluations away.
    ClearEval,
    /// Move the bar to a step.
    Bar,
    /// Print a line.
    Line,
    /// Log for information.
    Info,
    /// Log a warning.
    Warn,
    /// End, without an error.
    Stop,
    /// End with the error that the training failed with.
    Fail,
}

/// One thing to show.
#[derive(Debug)]
pub struct Notice {
    pub place: Place,
    pub text: String,
    /// The step, for the bar.
    pub step: u64,
}

/// A notice as its place, its text and its step.
pub open spec fn seen(notice: Notice) -> (Place, Seq<char>, int) {
    (notice.place, notice.text@, notice.step as int)
}

pub open spec fn all_seen(notices: Seq<Notice>) -> Seq<(Place, Seq<char>, int)> {
    notices.map_values(|n: Notice| seen(n))
}

pub open spec fn said(place: Place, text: Seq<char>) -> (Place, Seq<char>, int) {
    (place, text, 0)
}

/// The progress of a training.
#[derive(Clone, Copy, Debug, PartialEq, Eq, Structural)]
pub struct Progress {
    /// How often the training is evaluated, in steps.
    pub eval_every: u32,
    /// Time spent training, in whole seconds.
    pub duration_secs: u64,
}

impl Progress {
    /// What an event gives to show, in order.
    pub open spec fn notices(self, event: ProgressEvent) -> Seq<(Place, Seq<char>, int)> {
        match event {
            ProgressEvent::NewProcess => seq![said(Place::Main, "Starting process..."@)],
            ProgressEvent::StartLoading { name, training } => if training {
                seq![said(Place::Main, "Loading "@ + name@ + "..."@)]
            } else {
                seq![
                    said(
                        Place::Line,
                        "❌ Only training is supported in the CLI (try passing --with-viewer to view a splat)"@,
                    ),
                    said(Place::Stop, Seq::empty()),
                ]
            },
            ProgressEvent::SplatsUpdated => Seq::empty(),
            ProgressEvent::TrainConfig => Seq::empty(),
            ProgressEvent::Dataset { train_views, eval_views } => {
                let views = decimal(train_views as nat) + " training, "@ + decimal(eval_views as nat)
                    + " eval views"@;
                seq![
                    said(Place::Info, "Loaded dataset with "@ + views),
                    said(Place::Main, "Loading dataset with "@ + views),
                    if eval_views > 0 {
                        said(
                            Place::Eval,
                            "evaluating "@ + decimal(eval_views as nat) + " views every "@
                                + decimal(self.eval_every as nat) + " steps"@,
                        )
                    } else {
                        said(Place::ClearEval, Seq::empty())
                    },
                ]
            },
            ProgressEvent::TrainStep { iter, elapsed_secs, lod } => seq![
                match lod {
                    Some((level, levels)) => said(
                        Place::Main,
                        "LOD "@ + decimal(level as nat) + "/"@ + decimal(levels as nat),
                    ),
                    None => said(Place::Main, "Training"@),
                },
                (Place::Bar, Seq::empty(), iter as int),
            ],
            ProgressEvent::RefineStep { cur_splat_count, iter } => seq![
                said(Place::Stats, "Current splat count "@ + decimal(cur_splat_count as nat)),
                said(
                    Place::Info,
                    "Refine iter "@ + decimal(iter as nat) + ", "@ + decimal(cur_splat_count as nat)
                        + " splats."@,
                ),
            ],
            ProgressEvent::EvalResult { iter, psnr, ssim } => {
                let text = "Eval iter "@ + decimal(iter as nat) + ": PSNR "@ + psnr@ + ", ssim "@
                    + ssim@;
                seq![said(Place::Info, text), said(Place::Eval, text)]
            },
            ProgressEvent::DoneTraining => Seq::empty(),
            ProgressEvent::DoneLoading => seq![
                said(Place::Info, "Completed loading."@),
                said(Place::Main, "Completed loading"@),
                said(Place::Stats, "Completed loading"@),
            ],
            ProgressEvent::Warning { error } => seq![
                said(Place::Warn, error@),
                said(Place::Line, "⚠️: "@ + error@),
            ],
            ProgressEvent::Failed => seq![
                said(Place::Line, "❌ Encountered an error"@),
                said(Place::Fail, Seq::empty()),
            ],
        }
    }

    /// The progress after an event: a training step tells the time spent.
    pub open spec fn after(self, event: ProgressEvent) -> Progress {
        match event {
            ProgressEvent::TrainStep { elapsed_secs, .. } => Progress {
                duration_secs: elapsed_secs,
                ..self
            },
            _ => self,
        }
    }

    /// A training that has not begun.
    pub fn new(eval_every: u32) -> (r: Progress)
        ensures
            r == (Progress { eval_every, duration_secs: 0 }),
    {
        Progress { eval_every, duration_secs: 0 }
    }

    /// Take an event in and tell what to show.
    pub fn on_event(&mut self, event: &ProgressEvent) -> (r: Vec<Notice>)
        ensures
            *final(self) == old(self).after(*event),
            all_seen(r@) == old(self).notices(*event),
    {
        let ghost before = *self;
        let mut out: Vec<Notice> = Vec::new();
        match event {
            ProgressEvent::NewProcess => {
                say(&mut out, Place::Main, "Starting process...");
            },
            ProgressEvent::StartLoading { name, training } => {
                if *training {
                    let mut text: String = String::from_str("Loading ");
                    text.append(name.as_str());
                    text.append("...");
                    tell(&mut out, Place::Main, text);
                } else {
                    say(
                        &mut out,
                        Place::Line,
                        "❌ Only training is supported in the CLI (try passing --with-viewer to view a splat)",
                    );
                    tell(&mut out, Place::Stop, String::new());
                }
            },
            ProgressEvent::SplatsUpdated => {},
            ProgressEvent::TrainConfig => {},
            ProgressEvent::Dataset { train_views, eval_views } => {
                tell(
                    &mut out,
                    Place::Info,
                    views_text("Loaded dataset with ", *train_views, *eval_views),
                );
                tell(
                    &mut out,
                    Place::Main,
                    views_text("Loading dataset with ", *train_views, *eval_views),
                );
                if *eval_views > 0 {
                    let mut text: String = String::from_str("evaluating ");
                    push_decimal(&mut text, *eval_views);
                    text.append(" views every ");
                    push_decimal(&mut text, self.eval_every as u64);
                    text.append(" steps");
                    tell(&mut out, Place::Eval, text);
                } else {
                    tell(&mut out, Place::ClearEval, String::new());
                }
            },
            ProgressEvent::TrainStep { iter, elapsed_secs, lod } => {
                match lod {
                    Some((level, levels)) => {
                        let mut text: String = String::from_str("LOD ");
                        push_decimal(&mut text, *level as u64);
                        text.append("/");
                        push_decimal(&mut text, *levels as u64);
                        tell(&mut out, Place::Main, text);
                    },
                    None => {
                        say(&mut out, Place::Main, "Training");
                    },
                }
                let ghost shown = out@;
                out.push(Notice { place: Place::Bar, text: String::new(), step: *iter as u64 });
                assert(all_seen(out@) =~= all_seen(shown).push(
                    (Place::Bar, Seq::<char>::empty(), *iter as int),
                ));
                self.duration_secs = *elapsed_secs;
            },
            ProgressEvent::RefineStep { cur_splat_count, iter } => {
                let mut text: String = String::from_str("Current splat count ");
                push_decimal(&mut text, *cur_splat_count as u64);
                tell(&mut out, Place::Stats, text);
                let mut text: String = String::from_str("Refine iter ");
                push_decimal(&mut text, *iter as u64);
                text.append(", ");
                push_decimal(&mut text, *cur_splat_count as u64);
                text.append(" splats.");
                tell(&mut out, Place::Info, text);
            },
            ProgressEvent::EvalResult { iter, psnr, ssim } => {
                tell(&mut out, Place::Info, eval_text(*iter, psnr.as_str(), ssim.as_str()));
                tell(&mut out, Place::Eval, eval_text(*iter, psnr.as_str(), ssim.as_str()));
            },
            ProgressEvent::DoneTraining => {},
            ProgressEvent::DoneLoading => {
                say(&mut out, Place::Info, "Completed loading.");
                say(&mut out, Place::Main, "Completed loading");
                say(&mut out, Place::Stats, "Completed loading");
            },
            ProgressEvent::Warning { error } => {
                tell(&mut out, Place::Warn, error.clone());
                let mut text: String = String::from_str("⚠️: ");
                text.append(error.as_str());
                tell(&mut out, Place::Line, text);
            },
            ProgressEvent::Failed => {
                say(&mut out, Place::Line, "❌ Encountered an error");
                tell(&mut out, Place::Fail, String::new());
            },
        }
        assert(all_seen(out@) =~= before.notices(*event));
        out
    }

    /// What is shown at the end of a training.
    pub fn finish(&self) -> (r: Vec<Notice>)
        ensures
            all_seen(r@) == closing_notices(
                duration_text(self.duration_secs as nat),
                debugged_duration(self.duration_secs),
            ),
    {
        let took: String = format_seconds(self.duration_secs);
        let logged: String = debug_seconds(self.duration_secs);
        closing(took.as_str(), logged.as_str())
    }
}

/// The last things that are shown: how long the training took, in words and as
/// it is logged.
pub open spec fn closing_notices(took: Seq<char>, logged: Seq<char>) -> Seq<
    (Place, Seq<char>, int),
> {
    seq![
        said(Place::Line, "Training took "@ + took),
        said(Place::Info, "Done training! Took "@ + logged + "."@),
    ]
}

/// The last things that are shown, given how long the training took.
pub fn closing(took: &str, logged: &str) -> (r: Vec<Notice>)
    ensures
        all_seen(r@) == closing_notices(took@, logged@),
{
    let mut out: Vec<Notice> = Vec::new();
    let mut text: String = String::from_str("Training took ");
    text.append(took);
    tell(&mut out, Place::Line, text);
    let mut text: String = String::from_str("Done training! Took ");
    text.append(logged);
    text.append(".");
    tell(&mut out, Place::Info, text);
    assert(all_seen(out@) =~= closing_notices(took@, logged@));
    out
}

fn tell(out: &mut Vec<Notice>, place: Place, text: String)
    ensures
        all_seen(final(out)@) == all_seen(old(out)@).push(said(place, text@)),
{
    let ghost before = out@;
    out.push(Notice { place, text, step: 0 });
    assert(all_seen(out@) =~= all_seen(before).push(said(place, text@)));
}

fn say(out: &mut Vec<Notice>, place: Place, text: &str)
    ensures
        all_seen(final(out)@) == all_seen(old(out)@).push(said(place, text@)),
{
    tell(out, place, String::from_str(text));
}

fn views_text(start: &str, train_views: u64, eval_views: u64) -> (r: String)
    ensures
        r@ == start@ + (decimal(train_views as nat) + " training, "@ + decimal(eval_views as nat)
            + " eval views"@),
{
    let mut text: String = String::from_str(start);
    push_decimal(&mut text, train_views);
    text.append(" training, ");
    push_decimal(&mut text, eval_views);
    text.append(" eval views");
    assert(text@ =~= start@ + (decimal(train_views as nat) + " training, "@ + decimal(
        eval_views as nat,
    ) + " eval views"@));
    text
}

fn eval_text(iter: u32, psnr: &str, ssim: &str) -> (r: String)
    ensures
        r@ == "Eval iter "@ + decimal(iter as nat) + ": PSNR "@ + psnr@ + ", ssim "@ + ssim@,
{
    let mut text: String = String::from_str("Eval iter ");
    push_decimal(&mut text, iter as u64);
    text.append(": PSNR ");
    text.append(psnr);
    text.append(", ssim ");
    text.append(ssim);
    text
}

} // verus!
