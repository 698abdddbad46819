use weld::viewport::Viewport;

fn vp(height: u16, width: u16) -> Viewport {
    Viewport {
        scroll_y: 0,
        scroll_x: 0,
        height,
        width,
    }
}

#[test]
fn scroll_y_max_basic() {
    let v = vp(10, 40);
    assert_eq!(v.scroll_y_max(20), 10);
}

#[test]
fn scroll_y_max_content_fits() {
    let v = vp(10, 40);
    assert_eq!(v.scroll_y_max(5), 0);
}

#[test]
fn scroll_down_clamps() {
    let mut v = vp(10, 40);
    for _ in 0..25 {
        v.scroll_down(20);
    }
    assert_eq!(v.scroll_y, 10);
}

#[test]
fn scroll_up_clamps_at_zero() {
    let mut v = vp(10, 40);
    v.scroll_up();
    assert_eq!(v.scroll_y, 0);
}

#[test]
fn scroll_to_bottom_matches_repeated_down() {
    let mut v1 = vp(20, 40);
    v1.scroll_to_bottom(50);

    let mut v2 = vp(20, 40);
    for _ in 0..100 {
        v2.scroll_down(50);
    }

    assert_eq!(v1.scroll_y, v2.scroll_y);
}

#[test]
fn scroll_right_clamps() {
    let mut v = vp(10, 40);
    v.scroll_right(200, 100);
    assert_eq!(v.scroll_x, 60);
}

#[test]
fn scroll_to_right_matches_repeated_right() {
    let mut v1 = vp(10, 40);
    v1.scroll_to_right(100);

    let mut v2 = vp(10, 40);
    for _ in 0..200 {
        v2.scroll_right(2, 100);
    }

    assert_eq!(v1.scroll_x, v2.scroll_x);
}

#[test]
fn clamp_after_resize_shrink() {
    let mut v = vp(20, 40);
    v.scroll_y = 30;
    v.scroll_x = 50;
    // Shrink viewport — scroll_y 30 is still valid (max = 49 - 9 = 40)
    v.height = 10;
    v.width = 20;
    v.clamp(50, 100);
    assert_eq!(v.scroll_y, 30);
    assert_eq!(v.scroll_x, 50);
}

#[test]
fn clamp_pulls_back_overscrolled() {
    let mut v = vp(10, 40);
    v.scroll_y = 45;
    v.scroll_x = 90;
    // 50 rows, height 10 → max scroll_y = 40; width 40, content 100 → max scroll_x = 60
    v.clamp(50, 100);
    assert_eq!(v.scroll_y, 40);
    assert_eq!(v.scroll_x, 60);
}

#[test]
fn clamp_after_resize_grow() {
    let mut v = vp(10, 40);
    v.scroll_y = 10;
    v.scroll_x = 30;
    // Grow viewport to fit all content
    v.height = 50;
    v.width = 100;
    v.clamp(20, 80);
    assert_eq!(v.scroll_y, 0); // all content fits
    assert_eq!(v.scroll_x, 0); // all content fits
}

#[test]
fn scroll_left_and_edges() {
    let mut v = vp(10, 40);
    v.scroll_x = 5;
    v.scroll_left(2);
    assert_eq!(v.scroll_x, 3);
    v.scroll_left(10);
    assert_eq!(v.scroll_x, 0);
    v.scroll_to_right(30);
    assert_eq!(v.scroll_x, 0);
    v.scroll_y = 7;
    v.scroll_to_top();
    assert_eq!(v.scroll_y, 0);
    v.scroll_x = 9;
    v.scroll_to_left();
    assert_eq!(v.scroll_x, 0);
}

#[test]
fn default_viewport_is_zero() {
    let v = Viewport::default();
    assert_eq!((v.scroll_y, v.scroll_x, v.height, v.width), (0, 0, 0, 0));
}

#[test]
fn scroll_y_max_saturates_for_very_long_content() {
    let vp = Viewport { scroll_y: 0, scroll_x: 0, height: 1, width: 10 };
    assert_eq!(vp.scroll_y_max(65537), 65535);
    let vp = Viewport { scroll_y: 0, scroll_x: 0, height: 10, width: 10 };
    assert_eq!(vp.scroll_y_max(70000), 65535);
    assert_eq!(vp.scroll_y_max(100000), 65535);
    assert_eq!(vp.scroll_y_max(65540), 65530);
    assert_eq!(vp.scroll_y_max(20), 10);
    assert_eq!(vp.scroll_y_max(5), 0);
}

#[test]
fn scroll_down_passes_row_65536() {
    let mut vp = Viewport { scroll_y: 65530, scroll_x: 0, height: 1, width: 10 };
    for _ in 0..10 {
        vp.scroll_down(100000);
    }
    assert_eq!(vp.scroll_y, 65535);
}
