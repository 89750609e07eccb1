//! Pasted images.

use ocs_pi::attach::{stage_image, stage_png, too_long, Staged};

fn png_of(staged: &Staged) -> (&str, u32, u32) {
    match staged {
        Staged::Image { image, width, height } => {
            assert_eq!(image.mime, "image/png");
            (&image.base64, *width, *height)
        }
        Staged::Failed(why) => panic!("{why}"),
    }
}

#[test]
fn small_images_are_encoded_as_they_are() {
    let staged = stage_image(2, 1, &vec![255, 0, 0, 255, 0, 255, 0, 255], 0, 0);
    let (base64, width, height) = png_of(&staged);
    // The PNG signature, then the header chunk with the size.
    assert!(base64.starts_with("iVBORw0KGgoAAAANSUhEUgAAAAIAAAAB"), "{base64}");
    assert_eq!((width, height), (2, 1));
}

#[test]
fn long_images_are_scaled_to_the_target() {
    assert!(too_long(1601, 1) && too_long(1, 1601) && !too_long(1600, 1600));
    let pixels = vec![128u8; 1601 * 4];
    let staged = stage_image(1601, 1, &pixels, 4, 2);
    let (base64, width, height) = png_of(&staged);
    assert!(base64.starts_with("iVBORw0KGgoAAAANSUhEUgAAAAQAAAAC"), "{base64}");
    assert_eq!((width, height), (4, 2));
}

#[test]
fn strange_images_are_refused() {
    assert_eq!(stage_image(2, 2, &vec![0; 15], 0, 0), Staged::Failed("图像数据异常".into()));
    // Without pixels there is nothing to encode.
    assert_eq!(stage_image(0, 0, &vec![], 0, 0), Staged::Failed("PNG 编码失败".into()));
    assert_eq!(stage_png(None, 1, 1), Staged::Failed("PNG 编码失败".into()));
    assert_eq!(
        stage_png(Some(vec![0; 8 * 1024 * 1024 + 1]), 1, 1),
        Staged::Failed("图片过大（>8 MB）".into())
    );
    assert!(matches!(stage_png(Some(vec![0; 3]), 1, 1), Staged::Image { image, .. } if image.base64 == "AAAA"));
}
