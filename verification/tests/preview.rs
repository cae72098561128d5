use umbriel_config::shader_preview::{
    fill_rect, finalize_readback, full_source, r, summarize_log, test_frames, FrameLayout,
    PREAMBLE, PREVIEW_HEIGHT, PREVIEW_WIDTH, PREVIOUS_SAMPLE,
};
use umbriel_config::shaders::{preview_target, rebase_saved_key, Target};
use umbriel_config::values::ValueMap;

/// The stand-in frames at a size, with the fraction-based layout worked
/// out in floating point as the preview does.
fn frames_at(width: u32, height: u32) -> (Vec<u8>, Vec<u8>) {
    let w = width as i32;
    let h = height as i32;
    let widths = [0.55f32, 0.42, 0.63, 0.38, 0.57, 0.47];
    let mut text_widths = [0i32; 6];
    for (i, fraction) in widths.iter().enumerate() {
        text_widths[i] = (*fraction * (w - 48) as f32) as i32;
    }
    let layout = FrameLayout {
        text_widths,
        accent_current: r(
            (w as f32 * 0.62) as i32,
            (h as f32 * 0.55) as i32,
            (w as f32 * 0.90) as i32,
            (h as f32 * 0.78) as i32,
        ),
        accent_previous: r(
            (w as f32 * 0.10) as i32,
            (h as f32 * 0.55) as i32,
            (w as f32 * 0.38) as i32,
            (h as f32 * 0.78) as i32,
        ),
    };
    test_frames(width, height, &layout)
}

fn pixel(buf: &[u8], width: u32, x: u32, y: u32) -> [u8; 4] {
    let base = ((y * width + x) * 4) as usize;
    [buf[base], buf[base + 1], buf[base + 2], buf[base + 3]]
}

#[test]
fn full_source_layers_the_umbriel_contract() {
    let source = full_source("vec4 animation(vec2 uv) { MARKER }");
    let preamble_end = source.find(PREAMBLE.trim_end()).unwrap() + PREAMBLE.trim_end().len();
    let previous_end = source.find(PREVIOUS_SAMPLE.trim_end()).unwrap();
    let marker = source.find("MARKER").unwrap();
    let suffix = source
        .find("void main() { gl_FragColor = animation(v_texcoord); }")
        .unwrap();
    assert!(preamble_end <= previous_end);
    assert!(previous_end < marker);
    assert!(marker < suffix);
    for name in [
        "umbriel_clamped_progress",
        "umbriel_direction",
        "umbriel_size",
        "umbriel_random_seed",
        "umbriel_sample(",
        "umbriel_sample_previous(",
        "umbriel_linear_progress",
    ] {
        assert!(source.contains(name), "missing {name}");
    }
}

#[test]
fn test_frames_are_window_like_and_distinct() {
    let (current, previous) = frames_at(PREVIEW_WIDTH, PREVIEW_HEIGHT);
    assert_eq!(current.len(), (PREVIEW_WIDTH * PREVIEW_HEIGHT * 4) as usize);
    let (current2, _) = frames_at(PREVIEW_WIDTH, PREVIEW_HEIGHT);
    assert_eq!(current, current2);
    let dot = pixel(&current, PREVIEW_WIDTH, 22, 22);
    assert!(dot[0] > 150 && dot[1] < 150);
    let prev_dot = pixel(&previous, PREVIEW_WIDTH, 22, 22);
    assert!(dot[0] > prev_dot[0]);
    let right = pixel(
        &current,
        PREVIEW_WIDTH,
        PREVIEW_WIDTH * 3 / 4,
        PREVIEW_HEIGHT * 2 / 3,
    );
    assert!(right[2] > 180 && right[2] > right[0]);
    let prev_right = pixel(
        &previous,
        PREVIEW_WIDTH,
        PREVIEW_WIDTH * 3 / 4,
        PREVIEW_HEIGHT * 2 / 3,
    );
    assert_ne!(right, prev_right);
}

#[test]
fn finalize_readback_flips_and_premultiplies() {
    let pixels = vec![255, 100, 200, 50, 10, 20, 30, 255];
    let out = finalize_readback(pixels, 1, 2);
    assert_eq!(out[0..4], [10, 20, 30, 255]);
    assert_eq!(out[4..7], [50, 20, 39]);
    assert_eq!(out[7], 50);
}

#[test]
fn finalize_readback_leaves_extra_bytes_zero() {
    let pixels = vec![9, 9, 9, 0, 1, 2, 3, 4, 7, 7];
    let out = finalize_readback(pixels, 2, 1);
    assert_eq!(out, vec![0, 0, 0, 0, 0, 0, 0, 4, 0, 0]);
}

#[test]
fn summarize_log_keeps_first_lines() {
    let log = "NOTE: debug\nERROR: 0:4: 'foo' : undeclared identifier\nERROR: 1:9: '}' : syntax error\nmore\n";
    let summary = summarize_log(log);
    assert!(summary.starts_with("ERROR: 0:4"));
    assert!(summary.contains(" · "));
    assert!(!summary.contains("more"));
    let long = "ERROR: ".to_string() + &"x".repeat(400);
    assert!(summarize_log(&long).ends_with('…'));
    assert_eq!(summarize_log("  \n"), "shader rejected by the driver");
}

#[test]
fn summarize_log_exact_text() {
    assert_eq!(summarize_log("a\r\n\n  b  \nc"), "a · b");
    let long = "x".repeat(250);
    let cut = summarize_log(&long);
    assert_eq!(cut.chars().count(), 201);
    assert_eq!(cut.len(), 203);
}

#[test]
fn fill_rect_clamps_to_the_frame() {
    let mut buf = vec![0u8; 2 * 2 * 4];
    fill_rect(&mut buf, 2, 2, r(1, -5, 9, 1), [1, 2, 3, 4]);
    assert_eq!(buf, vec![0, 0, 0, 0, 1, 2, 3, 4, 0, 0, 0, 0, 0, 0, 0, 0]);
    let mut empty = vec![5u8; 4];
    fill_rect(&mut empty, 1, 1, r(1, 0, 0, 1), [0, 0, 0, 0]);
    assert_eq!(empty, vec![5, 5, 5, 5]);
}

#[test]
fn preview_targets_follow_the_event() {
    assert_eq!(preview_target("workspaces"), Target::Workspace);
    assert_eq!(preview_target("overview"), Target::Overview);
    assert_eq!(preview_target("scratchpad"), Target::Scratchpad);
    assert_eq!(preview_target("layers"), Target::Layer);
    assert_eq!(preview_target("border"), Target::Border);
    assert_eq!(preview_target("windows_in"), Target::Window);
}

fn baseline() -> ValueMap {
    ValueMap::from_pairs(vec![
        ("general.xwayland".to_owned(), "true".to_owned()),
        (
            "animation.windows_out.shader".to_owned(),
            "\"shaders/old.glsl\"".to_owned(),
        ),
    ])
}

fn rebase_scenario() {
    // A guide suggestion sits in the baseline but not on disk.
    let mut saved = baseline();
    // [animation.windows_out]\nshader = "shaders/new.glsl"
    let on_disk = vec![(
        "animation.windows_out.shader".to_owned(),
        "\"shaders/new.glsl\"".to_owned(),
    )];
    rebase_saved_key(&mut saved, "animation.windows_out.shader", &on_disk);
    assert_eq!(
        saved.get("animation.windows_out.shader").unwrap(),
        "\"shaders/new.glsl\""
    );
    assert_eq!(saved.get("general.xwayland").unwrap(), "true", "untouched");
    // A key the file no longer has leaves the baseline.
    let cleared: Vec<(String, String)> = Vec::new();
    rebase_saved_key(&mut saved, "animation.windows_out.shader", &cleared);
    assert!(!saved.contains_key("animation.windows_out.shader"));
    assert_eq!(saved.len(), 1);
}

#[test]
fn page_shaders_rebasing_one_key_leaves_the_rest_of_the_baseline() {
    rebase_scenario();
}

#[test]
fn library_rebasing_one_key_leaves_the_rest_of_the_baseline() {
    rebase_scenario();
}

#[test]
fn finalize_readback_of_an_opaque_frame_flips_and_flips_back() {
    let pixels = vec![1, 2, 3, 255, 4, 5, 6, 255, 7, 8, 9, 255, 10, 11, 12, 255, 13, 14, 15, 255, 16, 17, 18, 255];
    let once = finalize_readback(pixels.clone(), 2, 3);
    assert_eq!(once, vec![13, 14, 15, 255, 16, 17, 18, 255, 7, 8, 9, 255, 10, 11, 12, 255, 1, 2, 3, 255, 4, 5, 6, 255]);
    assert_eq!(finalize_readback(once, 2, 3), pixels);
}
