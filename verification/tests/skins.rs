use hydroxyl::domain::minecraft::profile::Face8x8;
use hydroxyl::services::skin::{face_image, face_layers, face_request, skin_update, textures_payload, AsyncCommand, ResolvedProfile, Rgba8, SkinService, SkinUpdate};
use hydroxyl::util::error::HydroxylError;

#[test]
fn lookups_start_once_and_answers_are_remembered() {
    let mut skins = SkinService::new();
    let (update, command) = skins.request(7);
    assert!(update.is_none());
    assert_eq!(command, Some(AsyncCommand::FetchSkin(7)));
    let (update, command) = skins.request(7);
    assert!(update.is_none());
    assert!(command.is_none());

    let done = skins.drain_updates(vec![SkinUpdate {
        uuid: 7,
        result: Err("offline".to_owned()),
        resolved_name: Some("Alex".to_owned()),
        skin_url: None,
    }]);
    assert_eq!(done.len(), 1);
    let (update, command) = skins.request(7);
    let update = update.unwrap();
    assert_eq!(update.result.unwrap_err(), "offline");
    assert_eq!(update.resolved_name.as_deref(), Some("Alex"));
    assert!(command.is_none());
}

#[test]
fn a_profile_without_a_skin_url_has_no_face() {
    let profile = Ok(ResolvedProfile { name: "Steve".to_owned(), skin_url: None });
    assert!(face_request(&profile).is_none());
    let update = skin_update(1, profile, None);
    assert_eq!(update.result.unwrap_err(), "missing Mojang skin URL");
    assert_eq!(update.resolved_name.as_deref(), Some("Steve"));

    let failed = skin_update(2, Err("timeout".to_owned()), None);
    assert_eq!(failed.result.unwrap_err(), "timeout");
    assert!(failed.resolved_name.is_none());

    let with_url = Ok(ResolvedProfile { name: "A".to_owned(), skin_url: Some("http://x/s.png".to_owned()) });
    assert_eq!(face_request(&with_url).as_deref(), Some("http://x/s.png"));
    let update = skin_update(3, with_url, Some(Ok(Face8x8::placeholder())));
    assert_eq!(update.result.unwrap().pixels.len(), 8);
}

#[test]
fn textures_are_decoded_from_base64() {
    let props = vec![
        ("other".to_owned(), "eA==".to_owned()),
        ("textures".to_owned(), "eyJ0ZXh0dXJlcyI6e319".to_owned()),
    ];
    assert_eq!(textures_payload(&props).unwrap(), b"{\"textures\":{}}".to_vec());
    let none: Vec<(String, String)> = vec![];
    assert_eq!(
        textures_payload(&none).unwrap_err(),
        HydroxylError::InvalidData("missing Mojang textures property".to_owned())
    );
    let bad = vec![("textures".to_owned(), "!!".to_owned())];
    assert!(matches!(textures_payload(&bad).unwrap_err(), HydroxylError::Codec(_)));
}

#[test]
fn the_placeholder_face_is_eight_by_eight() {
    let face = Face8x8::placeholder();
    assert_eq!(face.pixels.len(), 8);
    assert!(face.pixels.iter().all(|row| row.len() == 8));
    assert_eq!(face.pixels[0][0].color.red, 92);
}

fn png_bytes(image: &image::RgbaImage) -> Vec<u8> {
    let mut out = std::io::Cursor::new(Vec::new());
    image.write_to(&mut out, image::ImageFormat::Png).unwrap();
    out.into_inner()
}

#[test]
fn face_layers_pick_head_and_hat_pixels() {
    let mut skin = image::RgbaImage::from_pixel(64, 64, image::Rgba([0, 0, 0, 0]));
    skin.put_pixel(8, 8, image::Rgba([10, 20, 30, 255]));
    skin.put_pixel(40, 8, image::Rgba([250, 150, 50, 128]));
    skin.put_pixel(15, 15, image::Rgba([1, 2, 3, 4]));
    let bytes = png_bytes(&skin);
    let (width, height, rgba) = face_image(&bytes).unwrap();
    assert_eq!((width, height), (64, 64));
    assert_eq!(rgba.len(), 64 * 64 * 4);
    let layers = face_layers(width, height, &rgba).unwrap();
    assert_eq!(layers.len(), 8);
    assert_eq!(layers[0][0].0, Rgba8 { red: 10, green: 20, blue: 30, alpha: 255 });
    assert_eq!(layers[0][0].1, Rgba8 { red: 250, green: 150, blue: 50, alpha: 128 });
    assert_eq!(layers[7][7].0, Rgba8 { red: 1, green: 2, blue: 3, alpha: 4 });
}

#[test]
fn small_or_broken_images_have_no_face() {
    let small = image::RgbaImage::from_pixel(32, 16, image::Rgba([9, 9, 9, 255]));
    let (width, height, rgba) = face_image(&png_bytes(&small)).unwrap();
    assert!(face_layers(width, height, &rgba).is_none());
    assert!(matches!(face_image(&vec![1, 2, 3]).unwrap_err(), HydroxylError::Codec(_)));
}
