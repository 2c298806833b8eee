use deviltool::error::DDError;
use deviltool::tex2::{
    calc_offset, is_power_of_two, level_start, side_at_level, tex2_header, tex2_image,
    tex2_image_unbounded, tex2_pixel, DDTex2Image,
};

fn tex_bytes(height: u32, width: u32, levels: u8, pixels: u32) -> Vec<u8> {
    let mut b = vec![0x11, 0x40];
    b.extend_from_slice(&height.to_le_bytes());
    b.extend_from_slice(&width.to_le_bytes());
    b.push(levels);
    for i in 0..pixels {
        let v = i as u8;
        b.extend_from_slice(&[v, v.wrapping_add(100), v.wrapping_add(200), 0xFF - v]);
    }
    b
}

fn nth_pixel(i: u8) -> (u8, u8, u8, u8) {
    (i, i.wrapping_add(100), i.wrapping_add(200), 0xFF - i)
}

#[test]
fn level_zero_starts_at_zero() {
    assert_eq!(calc_offset(256, 256, 0), Ok(0));
    assert_eq!(calc_offset(0, 0, 0), Ok(0));
    assert_eq!(calc_offset(3, 5, 0), Ok(0));
    assert_eq!(calc_offset(u32::MAX, u32::MAX, 0), Ok(0));
}

#[test]
fn levels_of_a_256_square() {
    assert_eq!(calc_offset(256, 256, 1), Ok(65536));
    assert_eq!(calc_offset(256, 256, 2), Ok(65536 + 16384));
    assert_eq!(calc_offset(256, 256, 3), Ok(65536 + 16384 + 4096));
    assert_eq!(calc_offset(256, 256, 9), Ok(87381));
    assert_eq!(calc_offset(256, 256, 200), Ok(87381));
}

#[test]
fn levels_of_a_rectangle() {
    assert_eq!(calc_offset(4, 16, 1), Ok(64));
    assert_eq!(calc_offset(4, 16, 2), Ok(64 + 16));
    assert_eq!(calc_offset(4, 16, 3), Ok(64 + 16 + 4));
    assert_eq!(calc_offset(4, 16, 4), Ok(64 + 16 + 4));
}

#[test]
fn levels_need_powers_of_two() {
    assert_eq!(calc_offset(3, 4, 1), Err(DDError::UnsupportedMipmapLevel));
    assert_eq!(calc_offset(4, 6, 2), Err(DDError::UnsupportedMipmapLevel));
    assert_eq!(calc_offset(0, 4, 1), Err(DDError::UnsupportedMipmapLevel));
}

#[test]
fn level_start_beyond_32_bits_cannot_be_given() {
    assert_eq!(calc_offset(65536, 65536, 1), Err(DDError::LengthOverflow));
    assert_eq!(calc_offset(65536, 32768, 1), Ok(0x8000_0000));
    assert_eq!(calc_offset(65536, 32768, 2), Ok(0xA000_0000));
    assert_eq!(calc_offset(0x8000_0000, 0x8000_0000, 200), Err(DDError::LengthOverflow));
    assert_eq!(calc_offset(65536, 65535, 1), Err(DDError::UnsupportedMipmapLevel));
}

#[test]
fn level_start_for_any_sides() {
    assert_eq!(level_start(3, 5, 0), 0);
    assert_eq!(level_start(3, 5, 1), 15);
    assert_eq!(level_start(3, 5, 2), 15 + 2);
    assert_eq!(level_start(3, 5, 3), 15 + 2);
    assert_eq!(level_start(65536, 65536, 1), 1u128 << 32);
    assert_eq!(
        level_start(u32::MAX, u32::MAX, 1),
        (u32::MAX as u128) * (u32::MAX as u128)
    );
}

#[test]
fn powers_of_two() {
    assert!(is_power_of_two(1));
    assert!(is_power_of_two(2));
    assert!(is_power_of_two(256));
    assert!(is_power_of_two(0x8000_0000));
    assert!(!is_power_of_two(0));
    assert!(!is_power_of_two(3));
    assert!(!is_power_of_two(6));
    assert!(!is_power_of_two(u32::MAX));
    let mut x: u32 = 0;
    while x < 5000 {
        assert_eq!(is_power_of_two(x), x.is_power_of_two());
        x += 1;
    }
}

#[test]
fn sides_halve_with_each_level() {
    assert_eq!(side_at_level(256, 0), 256);
    assert_eq!(side_at_level(256, 3), 32);
    assert_eq!(side_at_level(256, 8), 1);
    assert_eq!(side_at_level(256, 9), 0);
    assert_eq!(side_at_level(7, 1), 3);
    assert_eq!(side_at_level(u32::MAX, 31), 1);
    assert_eq!(side_at_level(u32::MAX, 32), 0);
    assert_eq!(side_at_level(u32::MAX, 255), 0);
}

#[test]
fn header_is_read() {
    assert_eq!(tex2_header(&tex_bytes(2, 3, 4, 0)), Ok((2, 3, 4)));
    assert_eq!(tex2_header(&tex_bytes(0x01020304, 0x0A0B0C0D, 255, 1)), Ok((0x01020304, 0x0A0B0C0D, 255)));
}

#[test]
fn header_without_signature_is_refused() {
    let mut b = tex_bytes(2, 2, 0, 4);
    b[1] = 0x41;
    assert_eq!(tex2_header(&b), Err(DDError::BadTextureMagic));
    assert_eq!(tex2_image(&b).err(), Some(DDError::BadTextureMagic));
    assert_eq!(tex2_image_unbounded(&b).err(), Some(DDError::BadTextureMagic));
    assert_eq!(tex2_header(b":hx:rg:\x01\0\0\0\0"), Err(DDError::BadTextureMagic));
}

#[test]
fn short_header_is_incomplete() {
    assert_eq!(tex2_header(&[]), Err(DDError::IncompleteInput));
    assert_eq!(tex2_header(&[0x11]), Err(DDError::IncompleteInput));
    assert_eq!(tex2_header(&tex_bytes(2, 2, 0, 0)[..10]), Err(DDError::IncompleteInput));
}

#[test]
fn pixel_is_read_at_a_position() {
    let b = [1, 2, 3, 4, 5, 6, 7, 8, 9];
    assert_eq!(tex2_pixel(&b, 0), Some((1, 2, 3, 4)));
    assert_eq!(tex2_pixel(&b, 5), Some((6, 7, 8, 9)));
    assert_eq!(tex2_pixel(&b, 6), None);
    assert_eq!(tex2_pixel(&b, 100), None);
    assert_eq!(tex2_pixel(&[], 0), None);
}

#[test]
fn bounded_read_of_exactly_the_declared_pixels() {
    let (img, unused) = tex2_image(&tex_bytes(2, 2, 0, 4)).ok().unwrap();
    assert_eq!((img.height, img.width, img.mipmap_levels, img.mipmap_current), (2, 2, 0, 0));
    assert_eq!(img.pixels, vec![nth_pixel(0), nth_pixel(1), nth_pixel(2), nth_pixel(3)]);
    assert_eq!(unused, 0);
}

#[test]
fn bounded_read_leaves_extra_pixels_unused() {
    let b = tex_bytes(2, 2, 0, 6);
    let (img, unused) = tex2_image(&b).ok().unwrap();
    assert_eq!(img.pixels.len(), 4);
    assert_eq!(img.pixels[3], nth_pixel(3));
    assert_eq!(unused, 8);
}

#[test]
fn unbounded_read_takes_every_pixel() {
    let b = tex_bytes(2, 2, 0, 6);
    let (img, unused) = tex2_image_unbounded(&b).ok().unwrap();
    assert_eq!((img.height, img.width, img.mipmap_levels), (2, 2, 0));
    assert_eq!(img.pixels.len(), 6);
    assert_eq!(img.pixels[5], nth_pixel(5));
    assert_eq!(unused, 0);
    let mut longer = b.clone();
    longer.extend_from_slice(&[1, 2, 3]);
    let (img, unused) = tex2_image_unbounded(&longer).ok().unwrap();
    assert_eq!(img.pixels.len(), 6);
    assert_eq!(unused, 3);
}

#[test]
fn bounded_read_counts_the_mipmap_levels() {
    let (img, unused) = tex2_image(&tex_bytes(4, 4, 2, 22)).ok().unwrap();
    assert_eq!(img.pixels.len(), 16 + 4 + 1);
    assert_eq!(unused, 4);
    assert_eq!(tex2_image(&tex_bytes(4, 4, 2, 20)).err(), Some(DDError::IncompleteInput));
    let (img, _) = tex2_image(&tex_bytes(3, 5, 1, 17)).ok().unwrap();
    assert_eq!(img.pixels.len(), 15 + 2);
}

#[test]
fn bounded_read_of_too_few_pixels_is_incomplete() {
    assert_eq!(tex2_image(&tex_bytes(2, 2, 0, 3)).err(), Some(DDError::IncompleteInput));
    let mut b = tex_bytes(2, 2, 0, 4);
    b.pop();
    assert_eq!(tex2_image(&b).err(), Some(DDError::IncompleteInput));
    assert_eq!(tex2_image(&tex_bytes(u32::MAX, u32::MAX, 255, 4)).err(), Some(DDError::IncompleteInput));
}

#[test]
fn new_image_is_transparent_black() {
    let img = DDTex2Image::new(3, 2);
    assert_eq!((img.width, img.height, img.mipmap_levels, img.mipmap_current), (3, 2, 0, 0));
    assert_eq!(img.pixels, vec![(0, 0, 0, 0); 6]);
    assert_eq!(DDTex2Image::new(0, 7).pixels.len(), 0);
}

#[test]
fn saved_image_reads_back() {
    let b = tex_bytes(4, 2, 1, 10);
    let (img, unused) = tex2_image(&b).ok().unwrap();
    assert_eq!(unused, 0);
    let mut out = Vec::new();
    img.save(&mut out);
    assert_eq!(out, b);
}

#[test]
fn saving_writes_the_whole_chain_whatever_level_is_selected() {
    let b = tex_bytes(4, 4, 2, 21);
    let (mut img, _) = tex2_image(&b).ok().unwrap();
    assert_eq!(img.set_mipmap(2), Ok(()));
    let mut out = vec![7];
    img.save(&mut out);
    assert_eq!(out[0], 7);
    assert_eq!(out[1..].to_vec(), b);
}

#[test]
fn selecting_a_level() {
    let (mut img, _) = tex2_image(&tex_bytes(4, 8, 2, 42)).ok().unwrap();
    assert_eq!((img.cur_width(), img.cur_height()), (8, 4));
    assert_eq!(img.set_mipmap(1), Ok(()));
    assert_eq!(img.mipmap_current, 1);
    assert_eq!((img.cur_width(), img.cur_height()), (4, 2));
    assert_eq!(img.dimensions(), (4, 2));
    assert_eq!(img.bounds(), (0, 0, 4, 2));
    assert_eq!(img.set_mipmap(2), Ok(()));
    assert_eq!(img.dimensions(), (2, 1));
    assert_eq!(img.set_mipmap(40), Ok(()));
    assert_eq!(img.dimensions(), (0, 0));
    assert_eq!(img.set_mipmap(0), Ok(()));
    assert_eq!(img.dimensions(), (8, 4));
}

#[test]
fn selecting_a_level_needs_powers_of_two() {
    let mut img = DDTex2Image::new(6, 4);
    assert_eq!(img.set_mipmap(1), Err(DDError::UnsupportedMipmapLevel));
    assert_eq!(img.mipmap_current, 0);
    assert_eq!(img.set_mipmap(0), Ok(()));
    let mut img = DDTex2Image::new(4, 0);
    assert_eq!(img.set_mipmap(3), Err(DDError::UnsupportedMipmapLevel));
}

#[test]
fn pixel_places_follow_the_levels() {
    let (mut img, _) = tex2_image(&tex_bytes(4, 8, 2, 42)).ok().unwrap();
    assert_eq!(img.pos(0, 0), Some(0));
    assert_eq!(img.pos(3, 2), Some(19));
    assert_eq!(img.pixel(3, 2), nth_pixel(19));
    img.set_mipmap(1).unwrap();
    assert_eq!(img.pos(0, 0), Some(32));
    assert_eq!(img.pos(3, 1), Some(32 + 4 + 3));
    assert_eq!(img.pixel(3, 1), nth_pixel(39));
    img.set_mipmap(2).unwrap();
    assert_eq!(img.pos(1, 0), Some(32 + 8 + 1));
    assert_eq!(img.pos(u32::MAX, u32::MAX), Some(40 + 2 * (u32::MAX as usize) + u32::MAX as usize));
    assert_eq!(img.pixel(1, 0), nth_pixel(41));
}

#[test]
fn pixel_outside_the_buffer_is_white() {
    let (img, _) = tex2_image(&tex_bytes(2, 2, 0, 4)).ok().unwrap();
    assert_eq!(img.pixel(0, 2), (255, 255, 255, 255));
    assert_eq!(img.pixel(u32::MAX, u32::MAX), (255, 255, 255, 255));
    assert!(img.holds(1, 1));
    assert!(!img.holds(0, 2));
    let (mut img, _) = tex2_image_unbounded(&tex_bytes(4, 4, 3, 17)).ok().unwrap();
    img.set_mipmap(1).unwrap();
    assert_eq!(img.pixel(0, 0), nth_pixel(16));
    assert_eq!(img.pixel(1, 0), (255, 255, 255, 255));
}

#[test]
fn putting_a_pixel() {
    let mut img = DDTex2Image::new(2, 2);
    img.put_pixel(1, 1, (1, 2, 3, 4));
    assert_eq!(img.pixels, vec![(0, 0, 0, 0), (0, 0, 0, 0), (0, 0, 0, 0), (1, 2, 3, 4)]);
    assert_eq!(img.pixel(1, 1), (1, 2, 3, 4));
}

#[test]
fn level_as_rgba_bytes() {
    let (mut img, _) = tex2_image(&tex_bytes(2, 4, 1, 10)).ok().unwrap();
    assert_eq!(img.level_rgba(), tex_bytes(2, 4, 1, 10)[11..11 + 32].to_vec());
    img.set_mipmap(1).unwrap();
    assert_eq!(img.level_rgba(), tex_bytes(2, 4, 1, 10)[11 + 32..].to_vec());
    let (img, _) = tex2_image_unbounded(&tex_bytes(2, 2, 0, 3)).ok().unwrap();
    let mut expected = tex_bytes(2, 2, 0, 3)[11..].to_vec();
    expected.extend_from_slice(&[255, 255, 255, 255]);
    assert_eq!(img.level_rgba(), expected);
}

#[test]
fn inspection_counts_what_is_left_after_each_level() {
    let (img, _) = tex2_image(&tex_bytes(4, 4, 3, 22)).ok().unwrap();
    let report = img.inspect();
    assert_eq!(report.base_pixels, 16);
    assert_eq!(report.extra_pixels, 5);
    assert_eq!(report.levels.len(), 2);
    let first = &report.levels[0];
    assert_eq!((first.level, first.width, first.height, first.pixel_count, first.remaining), (1, 2, 2, 4, 1));
    let second = &report.levels[1];
    assert_eq!((second.level, second.width, second.height, second.pixel_count, second.remaining), (2, 1, 1, 1, 0));
}

#[test]
fn inspection_of_a_short_buffer_goes_below_zero() {
    let (img, _) = tex2_image_unbounded(&tex_bytes(4, 4, 2, 10)).ok().unwrap();
    let report = img.inspect();
    assert_eq!(report.base_pixels, 16);
    assert_eq!(report.extra_pixels, -6);
    assert_eq!(report.levels.len(), 1);
    assert_eq!(report.levels[0].remaining, -10);
    let (img, _) = tex2_image(&tex_bytes(2, 2, 0, 4)).ok().unwrap();
    assert_eq!(img.inspect().levels.len(), 0);
}
