use farba::{Color, RGBAColor};

#[test]
fn pack_puts_red_in_the_low_byte() {
    let c = RGBAColor::from_rgba(0x11, 0x22, 0x33, 0x44);
    assert_eq!(c.pack(), 0x4433_2211);
    assert_eq!(u32::from(c), 0x4433_2211);
}

#[test]
fn from_rgb_is_opaque() {
    let c = RGBAColor::from_rgb(1, 2, 3);
    assert_eq!(c, RGBAColor::from_rgba(1, 2, 3, 255));
    assert_eq!(c.pack(), 0xFF03_0201);
}

#[test]
fn packed_word_channels() {
    let p: u32 = 0xA1B2_C3D4;
    assert_eq!(p.red(), 0xD4);
    assert_eq!(p.green(), 0xC3);
    assert_eq!(p.blue(), 0xB2);
    assert_eq!(p.alpha(), 0xA1);
    assert_eq!(p.pack(), p);
}

#[test]
fn rgba_channels() {
    let c = RGBAColor::from_rgba(9, 8, 7, 6);
    assert_eq!((c.red(), c.green(), c.blue(), c.alpha()), (9, 8, 7, 6));
}

#[test]
fn pack_unpack_round_trip() {
    let values: [u8; 6] = [0, 1, 127, 128, 200, 255];
    for &r in values.iter() {
        for &g in values.iter() {
            for &b in values.iter() {
                for &a in values.iter() {
                    let c = RGBAColor::from_rgba(r, g, b, a);
                    let back = RGBAColor::from(u32::from(c));
                    assert_eq!(back, c);
                }
            }
        }
    }
}

#[test]
fn unpack_pack_round_trip() {
    for &p in [0u32, 1, 0xFF, 0x100, 0xDEAD_BEEF, u32::MAX].iter() {
        assert_eq!(u32::from(RGBAColor::from(p)), p);
    }
}
