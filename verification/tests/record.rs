//! Recording frames.

use brush::record::encoder::{
    append_step, check_append, check_buffer, check_finish, check_input, check_start, AppendStep,
    EncoderError,
};
use brush::record::surfaces::IoSurfaceTextureCache;
use brush::record::{swizzle, Bgra, Codec, MediaTime, Recorder, RecorderConfig};

fn recorder(width: u32, height: u32) -> Recorder {
    Recorder::new(RecorderConfig { width, height, fps: 30, codec: Codec::default() })
}

#[test]
fn frames_are_timed_by_their_number() {
    let mut rec = recorder(16, 9);
    assert_eq!(Codec::default(), Codec::Hevc);
    assert_eq!(rec.presentation_time(), MediaTime { value: 0, timescale: 30 });
    rec.frame_done(true);
    rec.frame_done(false);
    rec.frame_done(true);
    assert_eq!(rec.presentation_time(), MediaTime { value: 2, timescale: 30 });
}

#[test]
fn frames_have_four_bytes_for_each_pixel() {
    assert_eq!(recorder(16, 9).frame_bytes(), Some(576));
    assert_eq!(recorder(0, 9).frame_bytes(), None);
    assert_eq!(recorder(u32::MAX, u32::MAX).frame_bytes().unwrap() % 4, 0);
}

#[test]
fn workgroups_cover_the_frame() {
    assert_eq!(recorder(16, 9).workgroups(), (2, 2));
    assert_eq!(recorder(1, 0).workgroups(), (1, 0));
}

#[test]
fn pixels_are_taken_apart() {
    assert_eq!(swizzle(0x4433_2211), Bgra { b: 0x33, g: 0x22, r: 0x11, a: 0x44 });
}

#[test]
fn surfaces_keep_their_textures() {
    let mut cache: IoSurfaceTextureCache<&str> = IoSurfaceTextureCache::new();
    assert_eq!(cache.texture_by_key(7), None);
    assert_eq!(cache.ensure_texture(7, || Err("no memory")), Err("no memory"));
    assert_eq!(cache.texture_by_key(7), None);
    assert_eq!(cache.ensure_texture(7, || Ok::<&str, &str>("first")), Ok(7));
    assert_eq!(cache.ensure_texture(7, || Ok::<&str, &str>("second")), Ok(7));
    assert_eq!(cache.ensure_texture(8, || Ok::<&str, &str>("third")), Ok(8));
    assert_eq!(cache.texture_by_key(7), Some(&"first"));
    assert_eq!(cache.texture_by_key(8), Some(&"third"));
}

#[test]
fn buffers_are_checked() {
    assert!(check_buffer(0, false).is_ok());
    assert_eq!(
        check_buffer(0, true).unwrap_err().message(),
        "pool returned a null pixel buffer"
    );
    assert_eq!(
        check_buffer(-6661, true).unwrap_err().message(),
        "CVPixelBufferPoolCreatePixelBuffer failed: -6661"
    );
    assert_eq!(
        check_buffer(i32::MIN, false).unwrap_err().message(),
        "CVPixelBufferPoolCreatePixelBuffer failed: -2147483648"
    );
    assert_eq!(
        check_buffer(7, false).unwrap_err().message(),
        "CVPixelBufferPoolCreatePixelBuffer failed: 7"
    );
}

#[test]
fn frames_wait_for_the_encoder() {
    assert_eq!(append_step(true), AppendStep::Append);
    assert_eq!(append_step(false), AppendStep::Wait(1));
}

#[test]
fn files_are_checked() {
    assert!(check_finish(2, String::from("done"), String::new()).is_ok());
    let err = check_finish(3, String::from("Failed"), String::from("disk full")).unwrap_err();
    assert_eq!(err.message(), "AVAssetWriter finish bad status Failed: disk full");
}

#[test]
fn encoder_errors_have_texts() {
    let text = |e: EncoderError| e.message();
    let full = String::from("full");
    assert_eq!(
        text(EncoderError::InputRejected),
        "AVAssetWriter rejected the video input (codec/size mismatch?)"
    );
    assert_eq!(
        text(EncoderError::StartFailed { error: full.clone() }),
        "AVAssetWriter startWriting failed: full"
    );
    assert_eq!(
        text(EncoderError::NoPool),
        "pixel buffer pool not ready (writer not started?)"
    );
    assert_eq!(text(EncoderError::NotShared), "CVPixelBuffer is not IOSurface-backed");
    assert_eq!(
        text(EncoderError::AppendFailed { error: full }),
        "appendPixelBuffer failed: full"
    );
}

#[test]
fn frames_are_recorded_step_by_step() {
    let mut rec = recorder(16, 9);
    let mut cache: IoSurfaceTextureCache<&str> = IoSurfaceTextureCache::new();
    let dequeue = || Ok::<u8, &str>(5);
    let surface_of = |buffer: &u8| Ok::<u32, &str>(*buffer as u32);
    let dispatch = |texture: &&str, width: u32, height: u32| {
        assert_eq!((*texture, width, height), ("texture", 16, 9));
    };
    let append = |buffer: u8, at: MediaTime| {
        assert_eq!((buffer, at), (5, MediaTime { value: 0, timescale: 30 }));
        Ok::<(), &str>(())
    };
    let make = |buffer: &u8, width: u32, height: u32| {
        assert_eq!((*buffer, width, height), (5, 16, 9));
        Ok::<&str, &str>("texture")
    };
    assert_eq!(rec.write_frame(&mut cache, &dequeue, &surface_of, &make, &dispatch, &append), Ok(()));
    assert_eq!(rec.frame_index, 1);
    assert_eq!(cache.texture_by_key(5), Some(&"texture"));

    let refuse = |_: u8, at: MediaTime| {
        assert_eq!(at.value, 1);
        Err::<(), &str>("full")
    };
    let again = |_: &u8, _: u32, _: u32| Err::<&str, &str>("not asked for");
    assert_eq!(
        rec.write_frame(&mut cache, &dequeue, &surface_of, &again, &dispatch, &refuse),
        Err("full")
    );
    assert_eq!(rec.frame_index, 1);
}

#[test]
fn written_frames_have_no_gaps() {
    let mut rec = recorder(16, 9);
    let mut cache: IoSurfaceTextureCache<&str> = IoSurfaceTextureCache::new();
    let dequeue = || Ok::<u8, &str>(5);
    let surface_of = |buffer: &u8| Ok::<u32, &str>(*buffer as u32);
    let make = |_: &u8, _: u32, _: u32| Ok::<&str, &str>("texture");
    let dispatch = |_: &&str, _: u32, _: u32| {};
    let mut written = 0;
    for fails in [false, true, true, false, false, true, false] {
        let append = |_: u8, at: MediaTime| {
            assert_eq!(at, MediaTime { value: written, timescale: 30 });
            if fails { Err("full") } else { Ok(()) }
        };
        let done = rec.write_frame(&mut cache, &dequeue, &surface_of, &make, &dispatch, &append);
        assert_eq!(done.is_err(), fails);
        if !fails {
            written += 1;
        }
    }
    assert_eq!(rec.frame_index, 4);
}

#[test]
fn the_first_failure_ends_a_frame() {
    let mut rec = recorder(16, 9);
    let mut cache: IoSurfaceTextureCache<&str> = IoSurfaceTextureCache::new();
    let dequeue = || Ok::<u8, &str>(5);
    let no_buffer = || Err::<u8, &str>("no buffer");
    let surface_of = |buffer: &u8| Ok::<u32, &str>(*buffer as u32);
    let not_shared = |_: &u8| Err::<u32, &str>("not shared");
    let make = |_: &u8, _: u32, _: u32| Err::<&str, &str>("no texture");
    let dispatch = |_: &&str, _: u32, _: u32| panic!("nothing to show");
    let append = |_: u8, _: MediaTime| Ok::<(), &str>(());
    assert_eq!(
        rec.write_frame(&mut cache, &no_buffer, &surface_of, &make, &dispatch, &append),
        Err("no buffer")
    );
    assert_eq!(
        rec.write_frame(&mut cache, &dequeue, &not_shared, &make, &dispatch, &append),
        Err("not shared")
    );
    assert_eq!(
        rec.write_frame(&mut cache, &dequeue, &surface_of, &make, &dispatch, &append),
        Err("no texture")
    );
    assert_eq!((rec.frame_index, cache.texture_by_key(5)), (0, None));
}

#[test]
fn writers_are_checked() {
    assert!(check_input(true).is_ok());
    assert_eq!(
        check_input(false).unwrap_err().message(),
        "AVAssetWriter rejected the video input (codec/size mismatch?)"
    );
    assert!(check_start(true, String::new()).is_ok());
    assert_eq!(
        check_start(false, String::from("busy")).unwrap_err().message(),
        "AVAssetWriter startWriting failed: busy"
    );
    assert!(check_append(true, String::new()).is_ok());
    assert_eq!(
        check_append(false, String::from("late")).unwrap_err().message(),
        "appendPixelBuffer failed: late"
    );
    let bad = EncoderError::BadPath { path: String::from("clip") };
    assert_eq!(bad.message(), "output path is not valid UTF-8: clip");
    let failed = EncoderError::InitFailed { error: String::from("denied") };
    assert_eq!(failed.message(), "AVAssetWriter init failed: denied");
}
