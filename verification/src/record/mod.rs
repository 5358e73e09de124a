//! Recording frames into a video.

use crate::arith::Arith;
use crate::record::surfaces::IoSurfaceTextureCache;
use crate::render::frame::channel_byte;
use crate::render::rasterize::{Pixel, RasterizeUniforms};
use vstd::prelude::*;

pub mod encoder;
pub mod surfaces;

verus! {

/// Pixels along the edge of a workgroup of the swizzle pass.
pub const WORKGROUP: u32 = 8;

/// How the video is compressed.
#[derive(Clone, Copy, Debug, PartialEq, Eq, Structural)]
pub enum Codec {
    Hevc,
    H264,
}

impl Default for Codec {
    fn default() -> (r: Codec)
        ensures
            r == Codec::Hevc,
    {
        Codec::Hevc
    }
}

/// How a video is recorded.
#[derive(Clone, Copy, Debug, PartialEq, Eq, Structural)]
pub struct RecorderConfig {
    pub width: u32,
    pub height: u32,
    pub fps: u32,
    pub codec: Codec,
}

/// A time, as a number of parts of a second and the number of parts in it.
#[derive(Clone, Copy, Debug, PartialEq, Eq, Structural)]
pub struct MediaTime {
    pub value: i64,
    pub timescale: i32,
}

/// The frames of a recording: which comes next, and what each takes.
#[derive(Clone, Copy, Debug, PartialEq, Eq, Structural)]
pub struct Recorder {
    pub frame_index: i64,
    pub fps: u32,
    pub width: u32,
    pub height: u32,
}

impl Recorder {
    /// When the next frame is shown: frame number by frames per second.
    pub open spec fn next_time(self) -> MediaTime {
        MediaTime { value: self.frame_index, timescale: self.fps as i32 }
    }

    /// The recording after a frame, which counts only if it was written.
    pub open spec fn after(self, written: bool) -> Recorder {
        Recorder {
            frame_index: if written {
                (self.frame_index + 1) as i64
            } else {
                self.frame_index
            },
            ..self
        }
    }

    /// Begin a recording.
    pub fn new(config: RecorderConfig) -> (r: Recorder)
        ensures
            r == begun(config),
    {
        Recorder {
            frame_index: 0,
            fps: config.fps,
            width: config.width,
            height: config.height,
        }
    }

    /// When the next frame is shown: frame number by frames per second.
    pub fn presentation_time(&self) -> (r: MediaTime)
        ensures
            r == self.next_time(),
    {
        MediaTime { value: self.frame_index, timescale: self.fps as i32 }
    }

    /// A frame has been written, or could not be written. Only a frame that
    /// has been written counts.
    pub fn frame_done(&mut self, written: bool)
        requires
            old(self).frame_index < i64::MAX,
        ensures
            *final(self) == old(self).after(written),
    {
        if written {
            self.frame_index = self.frame_index + 1;
        }
    }

    /// Record a frame: take a pixel buffer from the encoder, have the pixels put
    /// into the texture of its surface, and append it at the time of the frame.
    /// For a surface that has no texture one is made, from the buffer and for the
    /// size of the frame. The first thing that fails
    /// ends it, and the frame then does not count.
    pub fn write_frame<
        B,
        T,
        E,
        D: Fn() -> Result<B, E>,
        S: Fn(&B) -> Result<u32, E>,
        M: Fn(&B, u32, u32) -> Result<T, E>,
        P: Fn(&T, u32, u32) -> (),
        A: Fn(B, MediaTime) -> Result<(), E>,
    >(
        &mut self,
        cache: &mut IoSurfaceTextureCache<T>,
        dequeue: &D,
        surface_of: &S,
        make: &M,
        dispatch: &P,
        append: &A,
    ) -> (r: Result<(), E>)
        requires
            old(self).frame_index < i64::MAX,
            call_requires(*dequeue, ()),
            forall|b: &B| #[trigger] call_requires(*surface_of, (b,)),
            forall|b: &B, w: u32, h: u32| #[trigger] call_requires(*make, (b, w, h)),
            forall|t: &T, w: u32, h: u32| #[trigger] call_requires(*dispatch, (t, w, h)),
            forall|b: B, at: MediaTime| #[trigger] call_requires(*append, (b, at)),
        ensures
            *final(self) == old(self).after(r.is_ok()),
            recorded(
                *old(self),
                old(cache)@,
                final(cache)@,
                *dequeue,
                *surface_of,
                *make,
                *dispatch,
                *append,
                r,
            ),
    {
        let ghost before = *self;
        let ghost textures = cache@;
        let buffer: B = match dequeue() {
            Ok(buffer) => buffer,
            Err(e) => {
                return Err(e);
            },
        };
        let ghost taken = buffer;
        assert(call_ensures(*dequeue, (), Ok::<B, E>(taken)));
        let id: u32 = match surface_of(&buffer) {
            Ok(id) => id,
            Err(e) => {
                return Err(e);
            },
        };
        assert(call_ensures(*surface_of, (&taken,), Ok::<u32, E>(id)));
        let width: u32 = self.width;
        let height: u32 = self.height;
        let make_here = || -> (made: Result<T, E>)
            ensures
                call_ensures(*make, (&taken, width, height), made),
            { make(&buffer, width, height) };
        match cache.ensure_texture(id, make_here) {
            Ok(_) => {},
            Err(e) => {
                return Err(e);
            },
        }
        match cache.texture_by_key(id) {
            Some(texture) => {
                dispatch(texture, self.width, self.height);
                assert(call_ensures(*dispatch, (&cache@[id], self.width, self.height), ()));
            },
            None => {},
        }
        let at: MediaTime = self.presentation_time();
        let done: Result<(), E> = append(buffer, at);
        self.frame_done(done.is_ok());
        done
    }

    /// Bytes of a frame of packed pixels; none for an empty frame.
    pub fn frame_bytes(&self) -> (r: Option<u128>)
        ensures
            self.width * self.height == 0 <==> r is None,
            r matches Some(n) ==> n == self.width * self.height * 4,
    {
        assert(self.width * self.height <= 0xffff_ffff * 0xffff_ffff) by (nonlinear_arith)
            requires
                self.width <= 0xffff_ffff,
                self.height <= 0xffff_ffff,
        ;
        let pixels: u128 = self.width as u128 * self.height as u128;
        if pixels == 0 {
            None
        } else {
            Some(pixels * 4)
        }
    }

    /// Workgroups of the swizzle pass along each axis: enough for all pixels,
    /// and no more.
    pub fn workgroups(&self) -> (r: (u32, u32))
        ensures
            covers(r.0, self.width),
            covers(r.1, self.height),
    {
        (groups_over(self.width), groups_over(self.height))
    }
}

/// A recording that has just begun.
pub open spec fn begun(config: RecorderConfig) -> Recorder {
    Recorder { frame_index: 0, fps: config.fps, width: config.width, height: config.height }
}

/// How many of the frames were written.
pub open spec fn written_of(outcomes: Seq<bool>) -> nat
    decreases outcomes.len(),
{
    if outcomes.len() == 0 {
        0
    } else {
        written_of(outcomes.drop_last()) + if outcomes.last() {
            1nat
        } else {
            0
        }
    }
}

/// A recording over a series of frames: `states[i]` is how it stands before frame
/// `i`, and `outcomes[i]` tells whether that frame was written.
pub open spec fn recording(config: RecorderConfig, states: Seq<Recorder>, outcomes: Seq<bool>) -> bool {
    &&& states.len() == outcomes.len() + 1
    &&& states[0] == begun(config)
    &&& forall|i: int|
        0 <= i < outcomes.len() ==> states[i + 1] == (#[trigger] states[i]).after(outcomes[i])
}

/// Frames sit side by side in the video: in any recording, a frame is appended at
/// as many parts of a second as frames were written before it, the parts being
/// those of the frame rate. So the first frame that is written is shown at zero,
/// the next at one, and so on, whatever failed in between.
pub proof fn law_written_frames_have_no_gaps(
    config: RecorderConfig,
    states: Seq<Recorder>,
    outcomes: Seq<bool>,
    i: int,
)
    requires
        recording(config, states, outcomes),
        outcomes.len() < i64::MAX,
        0 <= i < states.len(),
    ensures
        states[i].next_time() == (MediaTime {
            value: written_of(outcomes.take(i)) as i64,
            timescale: config.fps as i32,
        }),
        written_of(outcomes.take(i)) <= i,
        states[i].width == config.width,
        states[i].height == config.height,
    decreases i,
{
    if i > 0 {
        law_written_frames_have_no_gaps(config, states, outcomes, i - 1);
        assert(outcomes.take(i).drop_last() =~= outcomes.take(i - 1));
        assert(states[i - 1].after(outcomes[i - 1]) == states[i - 1 + 1]);
    } else {
        assert(outcomes.take(0) =~= Seq::<bool>::empty());
    }
}

/// What recording a frame comes to: each step is given what the one before it
/// gave, and the first error is the result.
pub open spec fn recorded<B, T, E, D, S, M, P, A>(
    recorder: Recorder,
    before: Map<u32, T>,
    after: Map<u32, T>,
    dequeue: D,
    surface_of: S,
    make: M,
    dispatch: P,
    append: A,
    r: Result<(), E>,
) -> bool where
    D: Fn() -> Result<B, E>,
    S: Fn(&B) -> Result<u32, E>,
    M: Fn(&B, u32, u32) -> Result<T, E>,
    P: Fn(&T, u32, u32) -> (),
    A: Fn(B, MediaTime) -> Result<(), E>,
 {
    ||| r matches Err(e) && after == before && call_ensures(dequeue, (), Err::<B, E>(e))
    ||| exists|buffer: B| #[trigger]
        call_ensures(dequeue, (), Ok::<B, E>(buffer)) && {
            ||| r matches Err(e) && after == before && call_ensures(
                surface_of,
                (&buffer,),
                Err::<u32, E>(e),
            )
            ||| exists|id: u32| #[trigger]
                call_ensures(surface_of, (&buffer,), Ok::<u32, E>(id)) && {
                    ||| r matches Err(e) && after == before && !before.contains_key(id)
                        && call_ensures(
                            make,
                            (&buffer, recorder.width, recorder.height),
                            Err::<T, E>(e),
                        )
                    ||| {
                        &&& before.contains_key(id) ==> after == before
                        &&& !before.contains_key(id) ==> exists|texture: T| #[trigger]
                            call_ensures(
                                make,
                                (&buffer, recorder.width, recorder.height),
                                Ok::<T, E>(texture),
                            ) && after == before.insert(id, texture)
                        &&& call_ensures(
                            dispatch,
                            (&after[id], recorder.width, recorder.height),
                            (),
                        )
                        &&& call_ensures(append, (buffer, recorder.next_time()), r)
                    }
                }
        }
}

/// The groups cover the pixels, and one group less would not.
pub open spec fn covers(groups: u32, pixels: u32) -> bool {
    groups * WORKGROUP >= pixels && (groups == 0 || (groups - 1) * WORKGROUP < pixels)
}

fn groups_over(pixels: u32) -> (r: u32)
    ensures
        covers(r, pixels),
{
    if pixels % WORKGROUP == 0 {
        pixels / WORKGROUP
    } else {
        pixels / WORKGROUP + 1
    }
}

/// Colour of a pixel in the order blue, green, red, opacity.
#[derive(Clone, Copy, Debug, PartialEq, Eq, Structural)]
pub struct Bgra {
    pub b: u8,
    pub g: u8,
    pub r: u8,
    pub a: u8,
}

/// Take a packed pixel, red in its low byte, apart.
pub fn swizzle(packed: u32) -> (r: Bgra)
    ensures
        packed == r.r + r.g * 0x100 + r.b * 0x1_0000 + r.a * 0x100_0000,
{
    Bgra {
        r: (packed % 0x100) as u8,
        g: (packed / 0x100 % 0x100) as u8,
        b: (packed / 0x1_0000 % 0x100) as u8,
        a: (packed / 0x100_0000) as u8,
    }
}

/// What is recorded of a pixel is what was rendered: each channel of the packed
/// pixel comes apart as it went in.
pub proof fn law_recorded_colors_are_rendered(
    g: Arith,
    u: RasterizeUniforms,
    pixel: Pixel,
    out: Bgra,
)
    requires
        pixel.packed(g, u) == out.r + out.g * 0x100 + out.b * 0x1_0000 + out.a * 0x100_0000,
    ensures
        out.r == channel_byte(g, pixel.final_r(g, u)),
        out.g == channel_byte(g, pixel.final_g(g, u)),
        out.b == channel_byte(g, pixel.final_b(g, u)),
        out.a == channel_byte(g, pixel.final_a(g)),
{
    let red = channel_byte(g, pixel.final_r(g, u));
    let green = channel_byte(g, pixel.final_g(g, u));
    let blue = channel_byte(g, pixel.final_b(g, u));
    let opacity = channel_byte(g, pixel.final_a(g));
    lemma_bytes_are_unique(
        red,
        green,
        blue,
        opacity,
        out.r as int,
        out.g as int,
        out.b as int,
        out.a as int,
    );
}

/// A word is made of its bytes in one way only.
proof fn lemma_bytes_are_unique(
    a0: int,
    a1: int,
    a2: int,
    a3: int,
    b0: int,
    b1: int,
    b2: int,
    b3: int,
)
    requires
        0 <= a0 < 0x100,
        0 <= a1 < 0x100,
        0 <= a2 < 0x100,
        0 <= a3 < 0x100,
        0 <= b0 < 0x100,
        0 <= b1 < 0x100,
        0 <= b2 < 0x100,
        0 <= b3 < 0x100,
        (a0 + a1 * 0x100 + a2 * 0x1_0000 + a3 * 0x100_0000) as u32 == b0 + b1 * 0x100 + b2
            * 0x1_0000 + b3 * 0x100_0000,
    ensures
        a0 == b0,
        a1 == b1,
        a2 == b2,
        a3 == b3,
{
}

} // verus!
