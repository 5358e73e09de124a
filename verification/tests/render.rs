//! Splats, tiles and pixels.

use brush::arith::{Op, Sym2, Vec3};
use brush::character::skeleton::Quat;
use brush::record::swizzle;
use brush::render::aux::{CountError, RenderAux, RenderAuxInner, RenderOutput};
use brush::render::dispatch::{
    detach_autodiff, detach_autodiff_int, resolve_to_cube_float, unwrap_ad_wgpu_float,
    unwrap_ad_wgpu_int, unwrap_wgpu_float, unwrap_wgpu_int, wrap_ad_wgpu_float, wrap_wgpu_float,
    wrap_wgpu_int, CheckpointingStrategy, DispatchTensor, TensorKind,
};
use brush::render::frame::Frame;
use brush::render::mode::{RasterPass, SplatRenderMode, TextureMode};
use brush::render::pipeline::{render, render_splats, DType, RenderCall, Rows};
use brush::render::project::{
    calc_cov2d, compensate_cov2d, limit_cov2d, project_splat, project_visible_kernel, read_mean,
    read_mean_viewspace, read_quat_unorm, read_scale, world_to_cam, Look, Mat3, ProjectInput,
    ProjectUniforms, Seen, Sight,
};
use brush::render::rasterize::{
    alpha_cutoff_weight, alpha_cutoff_weight_deriv, read_main_splat, read_projected_splat,
    write_projected_splat, RasterizeUniforms, Splat, SplatTable,
};
use brush::render::splats::{inverse_sigmoid, scrub_color, Splats};
use brush::render::tiles::{
    compact_bits_16, compute_bbox_extent, count_contributing_tiles, get_bbox, get_tile_bbox,
    map_1d_to_2d, tile_rect, will_primitive_contribute, PixelRect, TileBbox,
};
use brush::render::validate::Limits;
use brush::single::Single;

fn s(x: f32) -> Single {
    Single { bits: x.to_bits() }
}

fn v(x: Single) -> f32 {
    f32::from_bits(x.bits)
}

fn vec3(x: f32, y: f32, z: f32) -> Vec3 {
    Vec3::new(s(x), s(y), s(z))
}

fn det(c: Sym2) -> f32 {
    v(c.c00) * v(c.c11) - v(c.c01) * v(c.c01)
}

fn compute(op: Op) -> Single {
    match op {
        Op::Add(a, b) => s(v(a) + v(b)),
        Op::Sub(a, b) => s(v(a) - v(b)),
        Op::Mul(a, b) => s(v(a) * v(b)),
        Op::Div(a, b) => s(v(a) / v(b)),
        Op::Sqrt(a) => s(v(a).sqrt()),
        Op::Exp(a) => s(v(a).exp()),
        Op::Ln(a) => s(v(a).ln()),
        Op::Sigma { x, y, conic, center_x, center_y } => {
            let dx = v(x) - v(center_x);
            let dy = v(y) - v(center_y);
            s(0.5 * (v(conic.c00) * dx * dx + v(conic.c11) * dy * dy) + v(conic.c01) * dx * dy)
        }
        Op::Sigmoid(a) => s(1.0 / (1.0 + (-v(a)).exp())),
        Op::Determinant(c) => s(det(c)),
        Op::LargestEntry(c) => s(v(c.c00).abs().max(v(c.c01).abs()).max(v(c.c11).abs())),
        Op::Inverse00(c) => s(v(c.c11) / det(c)),
        Op::Inverse01(c) => s(-v(c.c01) / det(c)),
        Op::Inverse11(c) => s(v(c.c00) / det(c)),
        Op::FromInt(i) => s(i as f32),
        _ => unreachable!("not used by rendering"),
    }
}

fn sym2(c00: f32, c01: f32, c11: f32) -> Sym2 {
    Sym2 { c00: s(c00), c01: s(c01), c11: s(c11) }
}

#[test]
fn passes_and_modes() {
    assert!(!RasterPass::Forward.bwd_info());
    assert!(RasterPass::Backward.bwd_info());
    assert!(RasterPass::BackwardSmoothCutoff.bwd_info());
    assert!(!RasterPass::Backward.smooth_cutoff());
    assert!(RasterPass::BackwardSmoothCutoff.smooth_cutoff());
    assert_eq!(RasterPass::default(), RasterPass::Forward);
    assert_eq!(TextureMode::default(), TextureMode::Float);
    assert_eq!(RasterPass::for_texture(TextureMode::Float), RasterPass::Backward);
    assert_eq!(RasterPass::for_texture(TextureMode::Packed), RasterPass::Forward);
    assert_eq!(SplatRenderMode::for_mip(true), SplatRenderMode::Mip);
    assert_eq!(SplatRenderMode::for_mip(false), SplatRenderMode::Default);
}

#[test]
fn even_bits_are_gathered() {
    assert_eq!(compact_bits_16(0), 0);
    assert_eq!(compact_bits_16(0b0101_0101), 0b1111);
    assert_eq!(compact_bits_16(0b1010_1010), 0);
    assert_eq!(compact_bits_16(0x4000_0001), 0x8001);
    assert_eq!(compact_bits_16(u32::MAX), 0xffff);
}

#[test]
fn places_of_a_tile_are_its_pixels() {
    let mut seen = [[false; 16]; 16];
    for place in 0..256 {
        let (x, y) = map_1d_to_2d(256 * 5 + place, 3);
        // Tile 5 of three in a row: column 2, row 1.
        assert!((32..48).contains(&x) && (16..32).contains(&y));
        let cell = &mut seen[y as usize - 16][x as usize - 32];
        assert!(!*cell);
        *cell = true;
    }
    assert_eq!(map_1d_to_2d(1, 1), (1, 0));
    assert_eq!(map_1d_to_2d(2, 1), (0, 1));
    assert_eq!(map_1d_to_2d(255, 1), (15, 15));
}

#[test]
fn tiles_have_rectangles() {
    let rect = tile_rect(&compute, 2, 3);
    assert_eq!(
        rect,
        PixelRect { min_x: s(32.0), min_y: s(48.0), max_x: s(48.0), max_y: s(64.0) }
    );
}

#[test]
fn extents_follow_the_conic() {
    let (x, y) = compute_bbox_extent(&compute, sym2(1.0, 0.0, 4.0), s(2.0));
    assert_eq!(x, s((2.0f32 * 2.0 * 4.0 * 0.25).sqrt()));
    assert_eq!(y, s((2.0f32 * 2.0 * 1.0 * 0.25).sqrt()));
    assert_eq!(
        compute_bbox_extent(&compute, sym2(1.0, 1.0, 1.0), s(2.0)),
        (s(-1.0), s(-1.0))
    );
}

#[test]
fn boxes_are_held_to_the_viewport() {
    assert_eq!(
        get_bbox(&compute, s(5.5), s(1.0), s(2.0), s(3.0), 7, 10),
        TileBbox { min_x: 3, min_y: 0, max_x: 7, max_y: 5 }
    );
    assert_eq!(
        get_tile_bbox(&compute, s(40.0), s(8.0), s(16.0), s(4.0), 4, 4),
        TileBbox { min_x: 1, min_y: 0, max_x: 4, max_y: 1 }
    );
    assert_eq!(
        get_bbox(&compute, s(f32::NAN), s(0.0), s(1.0), s(1.0), 7, 7).min_x,
        0
    );
}

#[test]
fn near_splats_reach_a_tile() {
    let rect = tile_rect(&compute, 0, 0);
    let round = sym2(1.0, 0.0, 1.0);
    assert!(will_primitive_contribute(&compute, rect, s(8.0), s(8.0), round, s(0.1)));
    assert!(will_primitive_contribute(&compute, rect, s(18.0), s(8.0), round, s(2.0)));
    assert!(!will_primitive_contribute(&compute, rect, s(18.5), s(8.0), round, s(2.0)));
    assert!(!will_primitive_contribute(&compute, rect, s(18.0), s(18.0), round, s(2.0)));
    assert!(will_primitive_contribute(&compute, rect, s(17.0), s(17.0), round, s(2.0)));
    let bb = TileBbox { min_x: 0, min_y: 0, max_x: 2, max_y: 2 };
    assert_eq!(count_contributing_tiles(&compute, bb, s(15.0), s(8.0), round, s(2.0)), 2);
    assert_eq!(count_contributing_tiles(&compute, bb, s(16.0), s(16.0), round, s(2.0)), 4);
}

#[test]
fn faint_splats_are_faded_in() {
    let mid = 1.0f32 / 255.0;
    assert_eq!(alpha_cutoff_weight(&compute, s(0.0)), s(0.0));
    assert_eq!(alpha_cutoff_weight(&compute, s(0.5)), s(1.0));
    assert!((v(alpha_cutoff_weight(&compute, s(mid))) - 0.5).abs() < 1e-3);
    assert_eq!(alpha_cutoff_weight_deriv(&compute, s(0.5)), s(0.0));
    assert_eq!(alpha_cutoff_weight_deriv(&compute, s(0.0)), s(0.0));
    assert!((v(alpha_cutoff_weight_deriv(&compute, s(mid))) - 1500.0).abs() < 1.0);
}

fn splat(x: f32, y: f32, alpha: f32, color: [f32; 3], depth: f32) -> Splat {
    Splat {
        xy_x: s(x),
        xy_y: s(y),
        conic_x: s(1.0),
        conic_y: s(0.0),
        conic_z: s(1.0),
        color_a: s(alpha),
        color_r: s(color[0]),
        color_g: s(color[1]),
        color_b: s(color[2]),
        depth: s(depth),
    }
}

#[test]
fn stored_splats_are_read_back() {
    let mut projected = vec![s(7.0); 30];
    let mut one = splat(1.0, 2.0, 0.5, [0.1, 0.2, 0.3], 9.0);
    one.conic_y = s(0.25);
    write_projected_splat(&mut projected, 1, one);
    assert_eq!(read_projected_splat(&projected, 1), one);
    assert_eq!(projected[9], s(7.0));
    assert_eq!(projected[20], s(7.0));
    assert_eq!(
        read_main_splat(&projected, 1),
        (s(1.0), s(2.0), sym2(1.0, 0.25, 1.0), s(0.5))
    );
    assert_eq!(read_projected_splat(&vec![s(0.0); 10], 0), Splat::zero());
}

fn table(splats: &[Splat]) -> SplatTable {
    let mut projected = vec![s(0.0); splats.len() * 10];
    for (i, splat) in splats.iter().enumerate() {
        write_projected_splat(&mut projected, i as u32, *splat);
    }
    let ids: Vec<u32> = (0..splats.len() as u32).collect();
    SplatTable {
        compact_gid_from_isect: ids.clone(),
        global_from_compact_gid: ids.iter().map(|i| i + 1).collect(),
        projected,
    }
}

#[test]
fn splats_are_blended_front_to_back() {
    let table = table(&[
        splat(0.5, 0.5, 0.5, [1.0, 0.0, 0.0], 1.0),
        splat(0.5, 0.5, 0.6, [0.0, 1.0, -1.0], 2.0),
    ]);
    let mut visible = vec![s(0.0); 3];
    let pixel = table.compose_pixel(
        &compute,
        s(0.5),
        s(0.5),
        RasterPass::Backward,
        true,
        0,
        2,
        &mut visible,
    );
    assert_eq!(pixel.r, s(0.5));
    assert_eq!(pixel.g, s(0.6 * 0.5));
    assert_eq!(pixel.b, s(0.0));
    assert_eq!(pixel.t_acc, s(0.5 * (1.0 - 0.6)));
    assert_eq!(pixel.last_useful, 2);
    assert_eq!(visible, vec![s(0.0), s(1.0), s(1.0)]);
    assert!(pixel.depth_set);
    assert_eq!(pixel.depth, s(2.0));
}

#[test]
fn an_opaque_pixel_is_finished() {
    let opaque = splat(0.5, 0.5, 5.0, [1.0, 1.0, 1.0], 1.0);
    let table = table(&[opaque, opaque, splat(0.5, 0.5, 0.5, [1.0, 0.0, 0.0], 2.0)]);
    let mut visible = vec![s(0.0); 4];
    let pixel = table.compose_pixel(
        &compute,
        s(0.5),
        s(0.5),
        RasterPass::Backward,
        true,
        0,
        3,
        &mut visible,
    );
    assert!(pixel.done);
    assert_eq!(pixel.t_acc, s(1.0 - 0.999));
    assert_eq!(visible, vec![s(0.0), s(1.0), s(0.0), s(0.0)]);
}

#[test]
fn nothing_is_gathered_outside_of_the_image() {
    let table = table(&[splat(0.5, 0.5, 0.5, [1.0, 0.0, 0.0], 1.0)]);
    let mut visible = vec![s(0.0); 2];
    let pass = RasterPass::Backward;
    let outside = table.compose_pixel(&compute, s(0.5), s(0.5), pass, false, 0, 1, &mut visible);
    assert_eq!(outside.t_acc, s(1.0));
    let empty = table.compose_pixel(&compute, s(0.5), s(0.5), pass, true, 1, 1, &mut visible);
    assert_eq!(empty.t_acc, s(1.0));
    assert_eq!(empty.last_useful, 1);
    assert_eq!(empty.depth, s(1e30));
    assert_eq!(visible, vec![s(0.0); 2]);
}

fn uniforms() -> RasterizeUniforms {
    RasterizeUniforms {
        tile_bw: 2,
        img_w: 18,
        img_h: 3,
        bg_r: s(0.0),
        bg_g: s(0.0),
        bg_b: s(1.0),
    }
}

#[test]
fn a_tile_is_drawn_into_the_image() {
    let u = uniforms();
    let table = table(&[splat(16.5, 1.5, 0.5, [1.0, 0.0, 0.0], 4.0)]);
    let mut offsets = vec![0, 0, 0, 1];
    let mut frame = Frame {
        packed: vec![7; 54],
        float: Vec::new(),
        depth: vec![s(7.0); 54],
    };
    let mut visible = vec![s(0.0); 2];
    let pass = RasterPass::Forward;
    table.rasterize_kernel(&compute, 1, &mut offsets, &mut frame, &mut visible, &u, pass);
    // The pixel in the middle of the splat: red over a blue background.
    let middle = swizzle(frame.packed[18 + 16]);
    assert_eq!((middle.r, middle.g, middle.b, middle.a), (127, 0, 127, 127));
    assert_eq!(frame.depth[18 + 16], s(4.0));
    // Other tiles are left alone.
    assert_eq!(frame.packed[18 + 15], 7);
    assert_eq!(frame.depth[0], s(7.0));
    assert_eq!(offsets, vec![0, 0, 0, 1]);
    assert_eq!(visible, vec![s(0.0); 2]);
}

#[test]
fn a_backward_pass_cuts_ranges_and_draws_the_same() {
    let u = uniforms();
    let seen = splat(16.5, 1.5, 0.5, [1.0, 0.0, 0.0], 4.0);
    let unseen = splat(500.0, 500.0, 0.5, [1.0, 1.0, 1.0], 5.0);
    let table = table(&[seen, unseen]);
    let mut offsets = vec![0, 0, 0, 2];
    let blank = || Frame {
        packed: Vec::new(),
        float: vec![s(0.0); 54 * 4],
        depth: vec![s(0.0); 54],
    };
    let mut frame = blank();
    let mut visible = vec![s(0.0); 3];
    let pass = RasterPass::Backward;
    table.rasterize_kernel(&compute, 1, &mut offsets, &mut frame, &mut visible, &u, pass);
    assert_eq!(offsets, vec![0, 0, 0, 1]);
    assert_eq!(visible, vec![s(0.0), s(1.0), s(0.0)]);
    let mut again = blank();
    table.rasterize_kernel(&compute, 1, &mut offsets, &mut again, &mut visible, &u, pass);
    assert_eq!(again.float, frame.float);
    assert_eq!(again.depth, frame.depth);
    assert_eq!(frame.float[(18 + 16) * 4], s(0.5));
}

#[test]
fn parameters_are_put_together() {
    let splats = Splats::from_raw(
        vec![s(1.0), s(2.0), s(3.0), s(4.0), s(5.0), s(6.0)],
        vec![s(0.0); 8],
        vec![s(0.0), s(1.0), s(2.0), s(3.0), s(4.0), s(5.0)],
        vec![s(0.5); 6],
        vec![s(0.0), s(2.0)],
        SplatRenderMode::Mip,
    );
    assert_eq!(splats.num_splats(), 2);
    assert!(splats.render_mip);
    assert_eq!(splats.coeff_count, 1);
    assert_eq!(splats.means()[3], s(4.0));
    assert_eq!(splats.rotations().len(), 8);
    assert_eq!(splats.log_scales()[5], s(5.0));
    assert_eq!(splats.scales(&compute)[1], s(1.0f32.exp()));
    assert_eq!(splats.opacities(&compute), vec![s(0.5), s(1.0 / (1.0 + (-2.0f32).exp()))]);
    assert_eq!(splats.transforms[10], s(4.0));
    let scaled = splats.scaled_transforms(&compute, Some(s(2.0)));
    assert_eq!(scaled[8], s(1.0 + 2.0f32.ln()));
    assert_eq!(scaled[2], s(3.0));
    assert_eq!(scaled[17], s(3.0 + 2.0f32.ln()));
    assert_eq!(splats.scaled_transforms(&compute, None), splats.transforms);
}

#[test]
fn coefficients_are_added_and_dropped() {
    let splats = || {
        Splats::from_raw(
            vec![s(0.0); 6],
            vec![s(0.0); 8],
            vec![s(0.0); 6],
            (0..24).map(|i| s(i as f32)).collect(),
            vec![s(0.0); 2],
            SplatRenderMode::Default,
        )
    };
    let fewer = splats().with_coeff_count(1);
    assert_eq!(fewer.sh_coeffs, vec![s(0.0), s(1.0), s(2.0), s(12.0), s(13.0), s(14.0)]);
    let more = splats().with_coeff_count(9);
    assert_eq!(more.sh_coeffs.len(), 54);
    assert_eq!(more.sh_coeffs[11], s(11.0));
    assert_eq!(more.sh_coeffs[12], s(0.0));
    assert_eq!(more.sh_coeffs[27], s(12.0));
    assert_eq!(more.coeff_count, 9);
}

#[test]
fn colors_are_scrubbed() {
    assert_eq!(scrub_color(s(f32::NAN)), s(0.0));
    assert_eq!(scrub_color(s(f32::NEG_INFINITY)), s(0.0));
    assert_eq!(scrub_color(s(1e6)), s(100.0));
    assert_eq!(scrub_color(s(-1e6)), s(-100.0));
    assert_eq!(scrub_color(s(0.25)), s(0.25));
}

#[test]
fn sigmoids_are_undone() {
    for x in [0.1f32, 0.5, 0.9] {
        assert_eq!(inverse_sigmoid(&compute, s(x)), s((x / (1.0 - x)).ln()));
    }
}

fn view_uniforms() -> ProjectUniforms<&'static str, u8> {
    ProjectUniforms {
        vm0: vec3(1.0, 0.0, 0.0),
        vm1: vec3(0.0, 1.0, 0.0),
        vm2: vec3(0.0, 0.0, 1.0),
        vm3: vec3(4.0, 5.0, 6.0),
        half_max_render_fov: s(0.5),
        pinhole_params: "pinhole",
        jacobian_clamp_limits: 9,
        camera: vec3(-4.0, -5.0, -6.0),
        img_w: 48,
        img_h: 64,
        tile_bw: 3,
        tile_bh: 4,
        sh_degree: 0,
        total_splats: 2,
        num_visible: 1,
    }
}

fn output(num_visible: u32, num_intersections: u32) -> RenderOutput<&'static str, u8, &'static str, u8> {
    RenderOutput {
        out_img: "image",
        depth_img: "depth",
        aux: RenderAuxInner {
            num_visible,
            num_intersections,
            visible: "visible",
            max_radius: "radius",
            tile_offsets: 1,
            img_w: 48,
            img_h: 64,
        },
        projected_splats: "projected",
        compact_gid_from_isect: 2,
        project_uniforms: view_uniforms(),
        global_from_compact_gid: 3,
    }
}

#[test]
fn counts_are_checked() {
    assert!(output(2, 24).validate_counts().is_ok());
    let err = output(2, 25).validate_counts().unwrap_err();
    assert_eq!(err, CountError::Intersections { num_intersections: 25, most: 24 });
    assert_eq!(err.message(), "num_intersections (25) > max possible 24");
    let err = output(3, 25).validate_counts().unwrap_err();
    assert_eq!(err.message(), "num_visible (3) > total_splats (2)");
}

fn ranges(tile_offsets: Vec<u32>, img_w: u32, img_h: u32) -> RenderAux<u8, Vec<u32>> {
    RenderAux {
        num_visible: 0,
        num_intersections: 0,
        visible: 0,
        max_radius: 0,
        tile_offsets,
        img_w,
        img_h,
        depth_img: 0,
    }
}

#[test]
fn tiles_have_depths() {
    let depth = ranges(vec![0, 3, 3, 3], 17, 16).calc_tile_depth();
    assert_eq!((depth.rows, depth.columns), (1, 2));
    assert_eq!(depth.depths, vec![3, 0]);
    assert_eq!(ranges(Vec::new(), 0, 9).calc_tile_depth().rows, 1);
}

fn two_splats() -> Splats {
    Splats::from_tensor_data(
        vec![s(1.0), s(2.0), s(3.0), s(4.0), s(5.0), s(6.0)],
        vec![s(0.5); 8],
        vec![s(0.0); 6],
        vec![s(0.25); 24],
        4,
        vec![s(0.0), s(1.0)],
        SplatRenderMode::Default,
    )
}

#[test]
fn degrees_go_by_coefficients() {
    let degree = |n: u32| (n as f64).sqrt() as u32 - 1;
    let coeffs = |d: u32| (d + 1) * (d + 1);
    assert_eq!(two_splats().sh_degree(&degree), 1);
    let flat = two_splats().with_sh_degree(0, &coeffs);
    assert_eq!((flat.coeff_count, flat.sh_coeffs.len()), (1, 6));
    let round = two_splats().with_sh_degree(2, &coeffs);
    assert_eq!(round.sh_degree(&degree), 2);
    assert_eq!(round.sh_coeffs[11], s(0.25));
    assert_eq!(round.sh_coeffs[12], s(0.0));
    let again = two_splats().with_sh_degree(2, &coeffs).with_sh_degree(2, &coeffs);
    assert_eq!(again.sh_coeffs, round.sh_coeffs);
    assert_eq!(again.transforms, round.transforms);
    assert_eq!(again.coeff_count, 9);
}

#[test]
fn renders_are_told() {
    let run = |call: RenderCall<&'static str, Rows>| {
        assert_eq!(call.camera, "camera");
        assert_eq!((call.img_w, call.img_h), (48, 64));
        assert_eq!(call.background, vec3(0.1, 0.2, 0.3));
        assert_eq!((call.transforms.width, call.sh_coeffs.width), (10, 12));
        assert_eq!(call.transforms.values[7], s(2.0f32.ln()));
        assert_eq!(call.transforms.values[0], s(1.0));
        assert_eq!(call.raw_opacities.values, vec![s(0.0), s(1.0)]);
        assert_eq!(call.render_mode, SplatRenderMode::Default);
        assert_eq!(call.pass, RasterPass::Backward);
        output(2, 24)
    };
    let background = vec3(0.1, 0.2, 0.3);
    let size = (48, 64);
    let (image, aux) = render_splats(
        &compute,
        &run,
        two_splats(),
        "camera",
        size,
        background,
        Some(s(2.0)),
        TextureMode::Float,
    )
    .unwrap();
    assert_eq!((image, aux.depth_img, aux.visible), ("image", "depth", "visible"));
    assert_eq!((aux.num_visible, aux.num_intersections, aux.tile_offsets), (2, 24, 1));
    let packed = |call: RenderCall<&'static str, Rows>| {
        assert_eq!(call.pass, RasterPass::Forward);
        assert_eq!(call.transforms.values[7], s(0.0));
        output(3, 0)
    };
    let err = render_splats(
        &compute,
        &packed,
        two_splats(),
        "camera",
        size,
        background,
        None,
        TextureMode::Packed,
    )
    .unwrap_err();
    assert_eq!(err, CountError::Visible { num_visible: 3, total_splats: 2 });
}

#[test]
fn outputs_are_bound_by_name() {
    let call = RenderCall {
        camera: 7,
        img_w: 48,
        img_h: 64,
        transforms: "t",
        sh_coeffs: "c",
        raw_opacities: "o",
        render_mode: SplatRenderMode::Mip,
        background: vec3(0.0, 0.0, 0.0),
        pass: RasterPass::Forward,
    };
    let resolve = |name: &'static str| match name {
        "t" => "T",
        "c" => "C",
        _ => "O",
    };
    let run = |call: RenderCall<i32, &'static str>| {
        assert_eq!((call.transforms, call.sh_coeffs, call.raw_opacities), ("T", "C", "O"));
        assert_eq!((call.camera, call.img_w, call.img_h), (7, 48, 64));
        assert_eq!(call.render_mode, SplatRenderMode::Mip);
        output(1, 2)
    };
    let floats = |name: &'static str, kind: DType| {
        assert_eq!(kind, DType::F32);
        match name {
            "image" => "image out",
            "depth" => "depth out",
            "visible" => "visible out",
            "radius" => "radius out",
            _ => "projected out",
        }
    };
    let wholes = |number: u8, kind: DType| {
        assert_eq!(kind, DType::U32);
        number as u64 + 10
    };
    // Floats of the stream and of the buffers have the same type here.
    let out = render(call, &resolve, &run, &floats, &wholes);
    assert_eq!((out.out_img, out.depth_img), ("image out", "depth out"));
    assert_eq!((out.aux.visible, out.aux.max_radius), ("visible out", "radius out"));
    assert_eq!(out.projected_splats, "projected out");
    assert_eq!(out.aux.tile_offsets, 11);
    assert_eq!((out.compact_gid_from_isect, out.global_from_compact_gid), (12, 13));
    assert_eq!((out.aux.num_visible, out.aux.num_intersections), (1, 2));
    assert_eq!(out.project_uniforms, view_uniforms());
}

type Tensor = DispatchTensor<f32, u32, &'static str>;

#[test]
fn tensors_are_unwrapped_as_they_were_wrapped() {
    let float: Tensor = wrap_wgpu_float(0.5);
    assert_eq!(float.checkpointing, None);
    assert_eq!(unwrap_wgpu_float(float), 0.5);
    let whole: Tensor = wrap_wgpu_int(7);
    assert_eq!(unwrap_wgpu_int(whole), 7);
    let whole: Tensor = wrap_wgpu_int(8);
    assert_eq!(unwrap_ad_wgpu_int(whole), 8);
    let with_gradients: Tensor = wrap_ad_wgpu_float("tracked");
    assert_eq!(
        with_gradients.checkpointing,
        Some(CheckpointingStrategy::NoCheckpointing)
    );
    assert_eq!(unwrap_ad_wgpu_float(with_gradients), "tracked");
    let float: Tensor = wrap_wgpu_float(0.25);
    assert_eq!(resolve_to_cube_float(float, &|x: f32| x * 2.0), 0.5);
}

#[test]
fn detached_tensors_have_no_gradients() {
    let with_gradients: Tensor = wrap_ad_wgpu_float("tracked");
    let detached = detach_autodiff(with_gradients);
    assert_eq!(detached.checkpointing, None);
    assert!(matches!(detached.kind, TensorKind::Wgpu(_)));
    let inner: Tensor = wrap_wgpu_int(9);
    let whole = DispatchTensor {
        kind: TensorKind::Autodiff(Box::new(inner.kind)),
        checkpointing: Some(CheckpointingStrategy::Balanced),
    };
    let detached = detach_autodiff_int(whole);
    assert_eq!(detached.checkpointing, None);
    assert_eq!(unwrap_wgpu_int(detached), 9);
}

#[test]
fn values_are_validated() {
    let check = |values: &Vec<Single>, name: &str, within: Limits| {
        assert!(!name.is_empty());
        values.iter().all(|x| {
            v(*x).is_finite()
                && within.min.map_or(true, |low| v(low) <= v(*x))
                && within.max.map_or(true, |high| v(*x) <= v(high))
        })
    };
    assert!(two_splats().validate_values(&compute, &check));
    let mut wild = two_splats();
    wild.transforms[0] = s(f32::NAN);
    assert!(!wild.validate_values(&compute, &check));
    let mut large = two_splats();
    large.transforms[9] = s(6.0);
    assert!(!large.validate_values(&compute, &check));
    let mut bright = two_splats();
    bright.sh_coeffs[3] = s(5.5);
    assert!(!bright.validate_values(&compute, &check));
    let mut dull = two_splats();
    dull.raw_opacities[1] = s(-21.0);
    assert!(!dull.validate_values(&compute, &check));
}

fn transforms() -> Vec<Single> {
    (0..20).map(|i| s(i as f32 * 0.25)).collect()
}

#[test]
fn transforms_are_read_by_lanes() {
    let t = transforms();
    assert_eq!(read_mean(&t, 1), vec3(2.5, 2.75, 3.0));
    let q = read_quat_unorm(&t, 1);
    assert_eq!(q, Quat { x: s(3.25), y: s(3.5), z: s(3.75), w: s(4.0) });
    assert_eq!(
        read_scale(&compute, &t, 0),
        vec3(1.75f32.exp(), 2.0f32.exp(), 2.25f32.exp())
    );
}

#[test]
fn uniforms_hold_the_view() {
    let u = view_uniforms();
    assert_eq!(u.view_rotation(), Mat3 { c0: u.vm0, c1: u.vm1, c2: u.vm2 });
    assert_eq!(u.view_translation(), vec3(4.0, 5.0, 6.0));
    assert_eq!(u.camera_pos(), vec3(-4.0, -5.0, -6.0));
}

fn seen(a: f32, b: f32, c: f32, d: f32) -> Seen {
    Seen { a: s(a), b: s(b), c: s(c), d: s(d) }
}

/// A camera that looks straight ahead and keeps covariances as they are.
fn sight(question: Sight<&'static str, u8, char>) -> Seen {
    match question {
        Sight::Turned(_, x) => Seen { a: x.x, b: x.y, c: x.z, d: s(0.0) },
        Sight::UnitQuat(q) => Seen { a: q.x, b: q.y, c: q.z, d: q.w },
        Sight::Unit(x) => {
            let length = (v(x.x) * v(x.x) + v(x.y) * v(x.y) + v(x.z) * v(x.z)).sqrt();
            seen(v(x.x) / length, v(x.y) / length, v(x.z) / length, 0.0)
        }
        Sight::Covariance { scale, limits, pinhole, model, .. } => {
            assert_eq!((limits, pinhole, model), (9, "pinhole", 'm'));
            Seen { a: scale.x, b: s(0.0), c: scale.y, d: s(0.0) }
        }
        Sight::Projected { point, pinhole, model } => {
            assert_eq!((pinhole, model), ("pinhole", 'm'));
            Seen { a: point.x, b: point.y, c: s(0.0), d: s(0.0) }
        }
    }
}

#[test]
fn points_are_taken_to_the_camera() {
    let u = view_uniforms();
    assert_eq!(world_to_cam(&compute, &sight, vec3(1.0, 2.0, 3.0), &u), vec3(5.0, 7.0, 9.0));
    assert_eq!(
        read_mean_viewspace(&compute, &sight, &transforms(), 1, &u),
        vec3(6.5, 7.75, 9.0)
    );
}

#[test]
fn covariances_are_limited() {
    let quat = Quat { x: s(0.0), y: s(0.0), z: s(0.0), w: s(1.0) };
    let mean = vec3(0.0, 0.0, 1.0);
    let u = view_uniforms();
    let small = calc_cov2d(&compute, &sight, vec3(2.0, 3.0, 4.0), quat, mean, &u, 'm');
    assert_eq!(small, sym2(2.0, 0.0, 3.0));
    let huge = calc_cov2d(&compute, &sight, vec3(2e18, 1e18, 1.0), quat, mean, &u, 'm');
    assert!((v(huge.c00) / 1e18 - 1.0).abs() < 1e-5);
    assert!((v(huge.c11) / 0.5e18 - 1.0).abs() < 1e-5);
}

#[test]
fn huge_covariances_are_scaled_down() {
    assert_eq!(limit_cov2d(&compute, sym2(4.0, 1.0, 2.0)), sym2(4.0, 1.0, 2.0));
    let huge = limit_cov2d(&compute, sym2(4e18, 1e18, 2e18));
    assert!((v(huge.c00) / 1e18 - 1.0).abs() < 1e-5);
    assert!((v(huge.c01) / 0.25e18 - 1.0).abs() < 1e-5);
}

#[test]
fn blur_is_compensated() {
    let c = sym2(1.0, 0.5, 2.0);
    let (plain, one) = compensate_cov2d(&compute, c, false);
    assert_eq!(plain, sym2(1.0 + 0.3, 0.5, 2.0 + 0.3));
    assert_eq!(one, s(1.0));
    let (mip, factor) = compensate_cov2d(&compute, c, true);
    assert_eq!(mip, sym2(1.0 + 0.1, 0.5, 2.0 + 0.1));
    assert_eq!(factor, s((det(c) / det(mip)).sqrt()));
    let (_, none) = compensate_cov2d(&compute, sym2(1.0, 2.0, 1.0), true);
    assert_eq!(v(none), 0.0);
}

fn look() -> Look {
    Look {
        mean: vec3(1.0, 2.0, 9.0),
        covariance: sym2(1.7, 0.0, 0.7),
        x: s(3.0),
        y: s(4.0),
        color: vec3(0.25, f32::NAN, 1e9),
    }
}

#[test]
fn a_look_gives_a_splat() {
    let splat = project_splat(&compute, look(), s(0.0), false);
    assert_eq!((splat.xy_x, splat.xy_y), (s(3.0), s(4.0)));
    assert_eq!(splat.color_a, s(0.5));
    assert_eq!(splat.color_r, s(0.75));
    assert_eq!(splat.color_g, s(0.0));
    assert_eq!(splat.color_b, s(100.0));
    assert_eq!(splat.depth, s(9.0));
    assert!((v(splat.conic_x) - 0.5).abs() < 1e-6);
    assert!((v(splat.conic_z) - 1.0).abs() < 1e-6);
    assert_eq!(v(splat.conic_y), 0.0);
}

#[test]
fn visible_splats_are_projected() {
    let mut projected = vec![s(7.0); 20];
    let input = ProjectInput {
        transforms: transforms(),
        coeffs: (0..6).map(|i| s(i as f32)).collect(),
        coeff_count: 1,
        raw_opacities: vec![s(5.0), s(0.0)],
        global_from_compact_gid: vec![1, 0],
    };
    let color = |coeffs: &Vec<Single>, first: usize, from: Vec3| {
        let length = v(from.x) * v(from.x) + v(from.y) * v(from.y) + v(from.z) * v(from.z);
        assert!((length - 1.0).abs() < 1e-5);
        Vec3::new(coeffs[first], coeffs[first + 1], coeffs[first + 2])
    };
    let u = view_uniforms();
    project_visible_kernel(&compute, &sight, &color, &input, &mut projected, &u, 0, false, 'm');
    let splat = read_projected_splat(&projected, 0);
    assert_eq!((splat.xy_x, splat.xy_y, splat.depth), (s(6.5), s(7.75), s(9.0)));
    assert_eq!(splat.color_a, s(0.5));
    assert_eq!((splat.color_r, splat.color_g, splat.color_b), (s(3.5), s(4.5), s(5.5)));
    let cov = sym2(4.25f32.exp() + 0.3, 0.0, 4.5f32.exp() + 0.3);
    assert_eq!(splat.conic_x, s(v(cov.c11) / det(cov)));
    assert_eq!(projected[10], s(7.0));
    let before = projected.clone();
    project_visible_kernel(&compute, &sight, &color, &input, &mut projected, &u, 1, false, 'm');
    assert_eq!(projected, before);
}
