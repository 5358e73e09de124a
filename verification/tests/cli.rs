//! Arguments, progress, and rendering a single image.

use brush::arith::{Op, Vec3};
use brush::cli::args::{
    component_message, parse_number, parse_resolution, parse_resolution_arg, parse_vec3,
    shape_message, split_components, Cli, MissingSource, NumberError, Resolution,
    ResolutionError, RunMode,
};
use brush::cli::camera::look_basis;
use brush::cli::progress::{closing, Notice, Place, Progress, ProgressEvent};
use brush::cli::render::{
    check_loaded, dataset_message, drop_alpha, no_splats_message, on_load_event, LoadEvent, LoadStep,
};
use brush::single::Single;
use brush::text::{push_decimal, replace_all, trim};

fn s(x: f32) -> Single {
    Single { bits: x.to_bits() }
}

fn v(x: Single) -> f32 {
    f32::from_bits(x.bits)
}

fn vec3(x: f32, y: f32, z: f32) -> Vec3 {
    Vec3::new(s(x), s(y), s(z))
}

fn compute(op: Op) -> Single {
    match op {
        Op::Add(a, b) => s(v(a) + v(b)),
        Op::Sub(a, b) => s(v(a) - v(b)),
        Op::Mul(a, b) => s(v(a) * v(b)),
        Op::Div(a, b) => s(v(a) / v(b)),
        Op::Sqrt(a) => s(v(a).sqrt()),
        _ => unreachable!("not used by the camera"),
    }
}

fn parse(text: String) -> Result<Single, String> {
    text.parse::<f32>().map(s).map_err(|e| e.to_string())
}

#[test]
fn numbers_are_written_in_decimal() {
    for n in [0, 7, 10, 4096, u64::MAX] {
        let mut text = String::from("n=");
        push_decimal(&mut text, n);
        assert_eq!(text, format!("n={n}"));
    }
}

#[test]
fn patterns_are_replaced_from_the_left() {
    assert_eq!(replace_all("aaa", "aa", "b"), "ba");
    assert_eq!(replace_all("abcabc", "bc", ""), "aa");
    assert_eq!(replace_all("abc", "x", "y"), "abc");
}

#[test]
fn white_space_is_cut_off() {
    assert_eq!(trim("  a b\t\n"), "a b");
    assert_eq!(trim("\u{3000}x\u{a0}"), "x");
    assert_eq!(trim(" \t "), "");
    assert_eq!(trim(""), "");
}

#[test]
fn numbers_are_read() {
    assert_eq!(parse_number("0"), Ok(0));
    assert_eq!(parse_number("+12"), Ok(12));
    assert_eq!(parse_number("4294967295"), Ok(u32::MAX));
    assert_eq!(parse_number("4294967296"), Err(NumberError::TooLarge));
    assert_eq!(parse_number(""), Err(NumberError::Empty));
    assert_eq!(parse_number("+"), Err(NumberError::InvalidDigit));
    assert_eq!(parse_number("-1"), Err(NumberError::InvalidDigit));
    assert_eq!(parse_number("1 2"), Err(NumberError::InvalidDigit));
    for text in ["", "+", "-1", "x", "4294967296", "99999999999x"] {
        let ours = parse_number(text).unwrap_err().message();
        assert_eq!(ours, text.parse::<u32>().unwrap_err().to_string());
    }
}

#[test]
fn sizes_are_read() {
    assert_eq!(parse_resolution("1280x720"), Ok(Resolution { width: 1280, height: 720 }));
    assert_eq!(parse_resolution(" 8 x 9 "), Ok(Resolution { width: 8, height: 9 }));
    assert_eq!(parse_resolution("1280"), Err(ResolutionError::Shape));
    assert_eq!(parse_resolution("ax7"), Err(ResolutionError::Width(NumberError::InvalidDigit)));
    assert_eq!(parse_resolution("7x"), Err(ResolutionError::Height(NumberError::Empty)));
    assert_eq!(parse_resolution("0x7"), Err(ResolutionError::Zero));
    assert_eq!(parse_resolution("7x0"), Err(ResolutionError::Zero));
    assert_eq!(
        parse_resolution("1x2x3"),
        Err(ResolutionError::Height(NumberError::InvalidDigit))
    );
}

#[test]
fn bad_sizes_are_explained() {
    assert_eq!(
        parse_resolution_arg("12\"80"),
        Err(String::from("expected WIDTHxHEIGHT, got \"12\\\"80\""))
    );
    assert_eq!(
        parse_resolution_arg("ax7"),
        Err(String::from("width: invalid digit found in string"))
    );
    assert_eq!(
        parse_resolution_arg("7x"),
        Err(String::from("height: cannot parse integer from empty string"))
    );
    assert_eq!(
        parse_resolution_arg("0x1"),
        Err(String::from("resolution must be > 0 in both dimensions"))
    );
    assert_eq!(parse_resolution_arg("2x1"), Ok(Resolution { width: 2, height: 1 }));
}

#[test]
fn written_sizes_are_read_back() {
    for (width, height) in [(1, 1), (10, 99), (1280, 720), (u32::MAX, 4_000_000_000)] {
        let text = format!("{width}x{height}");
        assert_eq!(parse_resolution(&text), Ok(Resolution { width, height }));
    }
}

#[test]
fn components_are_split_at_commas() {
    let c = split_components(" 1, 2 ,3").unwrap();
    assert_eq!((c.x.as_str(), c.y.as_str(), c.z.as_str()), ("1", "2", "3"));
    assert!(split_components("1,2").is_none());
    assert!(split_components("1,2,3,4").is_none());
    let empty = split_components(",,").unwrap();
    assert_eq!((empty.x.as_str(), empty.y.as_str(), empty.z.as_str()), ("", "", ""));
    assert_eq!(shape_message("\"1\""), "expected 'x,y,z', got \"1\"");
    assert_eq!(component_message(2, "bad"), "component 2: bad");
}

#[test]
fn vectors_are_read() {
    assert_eq!(parse_vec3("0,1.5,-2", &parse).unwrap().0, vec3(0.0, 1.5, -2.0));
    assert_eq!(
        parse_vec3("0,1.5", &parse).unwrap_err(),
        "expected 'x,y,z', got \"0,1.5\""
    );
    assert_eq!(
        parse_vec3("0,a,b", &parse).unwrap_err(),
        "component 1: invalid float literal"
    );
    assert_eq!(
        parse_vec3("0,1,", &parse).unwrap_err(),
        "component 2: cannot parse float from empty string"
    );
}

fn cli(has_source: bool, with_viewer: bool, has_render_output: bool) -> Cli {
    Cli { has_source, with_viewer, has_render_output }
}

#[test]
fn a_source_is_demanded_where_it_is_needed() {
    assert_eq!(cli(false, true, true).validate(), Err(MissingSource::ForRenderOutput));
    assert_eq!(cli(false, false, false).validate(), Err(MissingSource::WithoutViewer));
    assert_eq!(cli(false, true, false).validate(), Ok(cli(false, true, false)));
    assert_eq!(cli(true, false, true).validate(), Ok(cli(true, false, true)));
    assert_eq!(
        MissingSource::ForRenderOutput.message(),
        "When --render-output is set, --source must be provided"
    );
    assert_eq!(
        MissingSource::WithoutViewer.message(),
        "When --with-viewer is false, --source must be provided"
    );
}

#[test]
fn arguments_choose_what_is_run() {
    assert_eq!(cli(true, true, true).run_mode(), RunMode::Render);
    assert_eq!(cli(true, true, false).run_mode(), RunMode::Viewer);
    assert_eq!(cli(true, false, false).run_mode(), RunMode::Terminal);
}

fn shown(notices: &[Notice]) -> Vec<(Place, &str, u64)> {
    notices.iter().map(|n| (n.place, n.text.as_str(), n.step)).collect()
}

#[test]
fn loading_is_reported() {
    let mut progress = Progress::new(1000);
    let notices = progress.on_event(&ProgressEvent::NewProcess);
    assert_eq!(shown(&notices), vec![(Place::Main, "Starting process...", 0)]);
    let notices = progress.on_event(&ProgressEvent::StartLoading {
        name: String::from("room"),
        training: true,
    });
    assert_eq!(shown(&notices), vec![(Place::Main, "Loading room...", 0)]);
    let notices = progress.on_event(&ProgressEvent::DoneLoading);
    assert_eq!(
        shown(&notices),
        vec![
            (Place::Info, "Completed loading.", 0),
            (Place::Main, "Completed loading", 0),
            (Place::Stats, "Completed loading", 0),
        ]
    );
    assert!(progress.on_event(&ProgressEvent::SplatsUpdated).is_empty());
    assert!(progress.on_event(&ProgressEvent::TrainConfig).is_empty());
    assert!(progress.on_event(&ProgressEvent::DoneTraining).is_empty());
}

#[test]
fn viewing_is_refused_on_the_terminal() {
    let mut progress = Progress::new(1000);
    let notices = progress.on_event(&ProgressEvent::StartLoading {
        name: String::from("room.ply"),
        training: false,
    });
    assert_eq!(
        shown(&notices),
        vec![
            (
                Place::Line,
                "❌ Only training is supported in the CLI (try passing --with-viewer to view a splat)",
                0
            ),
            (Place::Stop, "", 0),
        ]
    );
}

#[test]
fn data_sets_are_reported() {
    let mut progress = Progress::new(500);
    let notices = progress.on_event(&ProgressEvent::Dataset { train_views: 90, eval_views: 10 });
    assert_eq!(
        shown(&notices),
        vec![
            (Place::Info, "Loaded dataset with 90 training, 10 eval views", 0),
            (Place::Main, "Loading dataset with 90 training, 10 eval views", 0),
            (Place::Eval, "evaluating 10 views every 500 steps", 0),
        ]
    );
    let notices = progress.on_event(&ProgressEvent::Dataset { train_views: 3, eval_views: 0 });
    assert_eq!(shown(&notices)[2], (Place::ClearEval, "", 0));
}

#[test]
fn training_is_reported() {
    let mut progress = Progress::new(500);
    let notices = progress.on_event(&ProgressEvent::TrainStep {
        iter: 42,
        elapsed_secs: 7,
        lod: None,
    });
    assert_eq!(shown(&notices), vec![(Place::Main, "Training", 0), (Place::Bar, "", 42)]);
    let notices = progress.on_event(&ProgressEvent::TrainStep {
        iter: 43,
        elapsed_secs: 8,
        lod: Some((1, 3)),
    });
    assert_eq!(shown(&notices)[0], (Place::Main, "LOD 1/3", 0));
    let notices =
        progress.on_event(&ProgressEvent::RefineStep { cur_splat_count: 1000, iter: 44 });
    assert_eq!(
        shown(&notices),
        vec![
            (Place::Stats, "Current splat count 1000", 0),
            (Place::Info, "Refine iter 44, 1000 splats.", 0),
        ]
    );
    let notices = progress.on_event(&ProgressEvent::EvalResult {
        iter: 50,
        psnr: String::from("30.5"),
        ssim: String::from("0.9"),
    });
    assert_eq!(
        shown(&notices),
        vec![
            (Place::Info, "Eval iter 50: PSNR 30.5, ssim 0.9", 0),
            (Place::Eval, "Eval iter 50: PSNR 30.5, ssim 0.9", 0),
        ]
    );
    assert_eq!(progress.duration_secs, 8);
}

#[test]
fn trouble_is_reported() {
    let mut progress = Progress::new(500);
    let notices = progress.on_event(&ProgressEvent::Warning { error: String::from("hm") });
    assert_eq!(shown(&notices), vec![(Place::Warn, "hm", 0), (Place::Line, "⚠️: hm", 0)]);
    let notices = progress.on_event(&ProgressEvent::Failed);
    assert_eq!(
        shown(&notices),
        vec![(Place::Line, "❌ Encountered an error", 0), (Place::Fail, "", 0)]
    );
}

fn took(secs: u64) -> String {
    let mut progress = Progress::new(1);
    progress.on_event(&ProgressEvent::TrainStep { iter: 1, elapsed_secs: secs, lod: None });
    progress.finish()[0].text.clone()
}

#[test]
fn the_time_is_told_in_words() {
    assert_eq!(took(0), "Training took 0s");
    assert_eq!(took(59), "Training took 59s");
    assert_eq!(took(3661), "Training took 1h 1m 1s");
    assert_eq!(took(7200), "Training took 2h");
    assert_eq!(took(86_400), "Training took 1day");
    assert_eq!(took(2 * 86_400 + 60), "Training took 2days 1m");
    assert_eq!(took(2_630_016), "Training took 1month");
    assert_eq!(
        took(2 * 31_557_600 + 3 * 2_630_016 + 86_400 + 3_600 + 60 + 1),
        "Training took 2years 3months 1day 1h 1m 1s"
    );
}

#[test]
fn the_time_is_logged() {
    let mut progress = Progress::new(1);
    progress.on_event(&ProgressEvent::TrainStep { iter: 1, elapsed_secs: 61, lod: None });
    let notices = progress.finish();
    assert_eq!(notices[1].place, Place::Info);
    assert_eq!(notices[1].text, "Done training! Took FormattedDuration(61s).");
    let notices = closing("a while", "long");
    assert_eq!(
        shown(&notices),
        vec![
            (Place::Line, "Training took a while", 0),
            (Place::Info, "Done training! Took long.", 0),
        ]
    );
}

#[test]
fn only_splats_are_rendered() {
    assert_eq!(on_load_event(LoadEvent::DoneLoading), LoadStep::Render);
    assert_eq!(on_load_event(LoadEvent::End), LoadStep::Render);
    assert_eq!(
        on_load_event(LoadEvent::StartLoading { training: true }),
        LoadStep::RejectDataset
    );
    assert_eq!(on_load_event(LoadEvent::StartLoading { training: false }), LoadStep::Wait);
    assert_eq!(on_load_event(LoadEvent::Warning), LoadStep::Warn);
    assert_eq!(on_load_event(LoadEvent::Failed), LoadStep::Fail);
    assert_eq!(on_load_event(LoadEvent::Other), LoadStep::Wait);
    assert_eq!(
        dataset_message(),
        "--render-output expects a single .ply / .compressed.ply source, not a training dataset"
    );
    assert_eq!(no_splats_message(), "no splats were loaded from source");
    assert_eq!(check_loaded(false), Err("no splats were loaded from source"));
    assert_eq!(check_loaded(true), Ok(()));
}

#[test]
fn the_fourth_channel_is_dropped() {
    assert_eq!(drop_alpha(&vec![1, 2, 3, 4, 5, 6, 7, 8]), vec![1, 2, 3, 5, 6, 7]);
    assert!(drop_alpha(&Vec::<u8>::new()).is_empty());
}

#[test]
fn the_camera_looks_at_its_target() {
    let up = vec3(0.0, 1.0, 0.0);
    let basis = look_basis(&compute, vec3(0.0, 0.0, -2.5), vec3(0.0, 0.0, 0.0), up);
    assert_eq!(basis.forward, vec3(0.0, 0.0, 1.0));
    assert_eq!((v(basis.right.x), v(basis.right.y), v(basis.right.z)), (1.0, 0.0, 0.0));
    assert_eq!((v(basis.up.x), v(basis.up.y), v(basis.up.z)), (0.0, 1.0, 0.0));
}

#[test]
fn a_camera_without_a_direction_looks_ahead() {
    let eye = vec3(1.0, 2.0, 3.0);
    let basis = look_basis(&compute, eye, eye, vec3(0.0, 0.0, 0.0));
    assert_eq!(basis.forward, vec3(0.0, 0.0, 1.0));
    assert_eq!(v(basis.right.x), 1.0);
}

#[test]
fn a_hint_along_the_view_is_replaced() {
    let eye = vec3(0.0, 0.0, 0.0);
    let down = look_basis(&compute, eye, vec3(0.0, 3.0, 0.0), vec3(0.0, 1.0, 0.0));
    assert_eq!(down.forward, vec3(0.0, 1.0, 0.0));
    assert_eq!((v(down.right.x), v(down.right.y), v(down.right.z)), (0.0, 0.0, 1.0));
    let along = look_basis(&compute, eye, vec3(5.0, 0.0, 0.0), vec3(1.0, 0.0, 0.0));
    assert_eq!(along.forward, vec3(1.0, 0.0, 0.0));
    assert_eq!((v(along.right.x), v(along.right.y), v(along.right.z)), (0.0, 0.0, -1.0));
}
