use mirage::diversity::{
    generate_font_set, generate_git_persona, generate_hostname, generate_locale_combo, generate_mac,
    fonts_from, generate_machine_id, generate_screen_resolution, hostname_from, locale_combo_from, mac_from_parts, machine_id_from_bytes,
    persona_of, DeviceClass, NicCategory, Region,
};
use rand::rngs::StdRng;
use rand::SeedableRng;

fn test_region(mac_share: bool) -> Region {
    Region { name: "Test".into(), has_macos_share: mac_share, primary_lang: "en_US".into() }
}

#[test]
fn test_generate_hostname() {
    let mut rng = StdRng::seed_from_u64(42);
    let region = Region { name: "Test".into(), has_macos_share: true, primary_lang: "en_US".into() };
    let mut hostnames = std::collections::HashSet::new();
    for _ in 0..1000 {
        hostnames.insert(generate_hostname(&region, &mut rng));
    }
    assert!(hostnames.len() > 4);
}

#[test]
fn test_generate_mac() {
    let mut rng = StdRng::seed_from_u64(42);
    let region = Region { name: "Test".into(), has_macos_share: true, primary_lang: "en_US".into() };
    let mac = generate_mac(NicCategory::LaptopWifi, &region, &mut rng);
    assert!(!mac.0.starts_with("52:54:00"));
    let b1 = u8::from_str_radix(&mac.0[0..2], 16).unwrap();
    assert_eq!(b1 & 0x02, 0);
}

#[test]
fn hostnames_follow_the_patterns() {
    let mut rng = StdRng::seed_from_u64(7);
    let region = test_region(false);
    for _ in 0..200 {
        let h = generate_hostname(&region, &mut rng);
        assert!(!h.contains("macbook"), "no Mac names without a Mac share: {}", h);
        let ok_a = ["priya-", "james-", "alex-", "sakura-", "chen-"].iter().any(|p| h.starts_with(p));
        let ok_c = ["archlinux-", "workstation-", "dev-box-", "ninja-"].iter().any(|p| h.starts_with(p));
        let ok_d = ["fin-ws-", "eng-ws-", "hr-ws-", "sales-ws-"].iter().any(|p| h.starts_with(p));
        assert!(ok_a || ok_c || ok_d, "unexpected hostname {}", h);
        if ok_d {
            let digits = h.rsplit('-').next().unwrap();
            assert_eq!(digits.len(), 4, "department numbers are zero-padded: {}", h);
        }
    }
}

#[test]
fn machine_id_is_a_version_4_uuid_without_dashes() {
    let mut rng = StdRng::seed_from_u64(1);
    for _ in 0..50 {
        let id = generate_machine_id(&mut rng).0;
        assert_eq!(id.len(), 32);
        assert!(id.chars().all(|c| c.is_ascii_hexdigit() && !c.is_ascii_uppercase()));
        assert_eq!(&id[12..13], "4");
        assert!(["8", "9", "a", "b"].contains(&&id[16..17]));
    }
}

#[test]
fn mac_uses_the_category_ouis() {
    let mut rng = StdRng::seed_from_u64(3);
    let region = test_region(true);
    for _ in 0..50 {
        let mac = generate_mac(NicCategory::VmVirtio, &region, &mut rng).0;
        assert_eq!(mac.len(), 17);
        let oui = &mac[0..8];
        assert!(["50:54:00", "08:00:27", "00:05:69"].contains(&oui), "{}", mac);
    }
}

#[test]
fn resolutions_belong_to_the_device_class() {
    let mut rng = StdRng::seed_from_u64(5);
    let region = test_region(true);
    for _ in 0..50 {
        let r = generate_screen_resolution(DeviceClass::Phone, &region, &mut rng);
        assert!([(1080, 2340), (1170, 2532), (1440, 3200)].contains(&(r.width, r.height)));
    }
}

#[test]
fn font_sets_hold_the_base_fonts_and_sixteen_to_nineteen_in_all() {
    let mut rng = StdRng::seed_from_u64(11);
    let region = test_region(true);
    for _ in 0..30 {
        let fonts: Vec<String> = generate_font_set(&region, &mut rng).into_iter().map(|f| f.0).collect();
        assert!(fonts.len() >= 16 && fonts.len() <= 19, "{}", fonts.len());
        for base in ["Arial", "Times New Roman", "Garamond", "Palatino Linotype"] {
            assert!(fonts.iter().any(|f| f == base));
        }
    }
}

#[test]
fn locale_combos_vary_at_most_one_field() {
    let mut rng = StdRng::seed_from_u64(13);
    let region = Region { name: "Japan".into(), has_macos_share: true, primary_lang: "ja_JP".into() };
    let mut varied = 0;
    for _ in 0..200 {
        let c = generate_locale_combo(&region, &mut rng);
        assert_eq!(c.lang, "ja_JP.UTF-8");
        assert_eq!(c.tz, "Europe/London");
        let time_varied = c.lc_time != c.lang;
        let num_varied = c.lc_numeric != c.lang;
        assert!(!(time_varied && num_varied));
        if time_varied {
            assert_eq!(c.lc_time, "en_US.UTF-8");
            varied += 1;
        }
        if num_varied {
            assert_eq!(c.lc_numeric, "de_DE.UTF-8");
            varied += 1;
        }
    }
    assert!(varied > 0 && varied < 200);
}

#[test]
fn git_persona_mail_is_the_lowercased_name() {
    let mut rng = StdRng::seed_from_u64(17);
    let region = test_region(true);
    for _ in 0..30 {
        let p = generate_git_persona(&region, &mut rng);
        let (first, last) = p.user_name.split_once(' ').unwrap();
        let (local, domain) = p.user_email.split_once('@').unwrap();
        assert_eq!(local, format!("{}.{}", first.to_lowercase(), last.to_lowercase()));
        assert!(["gmail.com", "yahoo.co.jp", "naver.com", "163.com", "gmx.de"].contains(&domain));
    }
}

#[test]
fn persona_of_composes_name_and_mail() {
    let p = persona_of("Sakura", "Chen", "sakura", "chen", "gmx.de");
    assert_eq!(p.user_name, "Sakura Chen");
    assert_eq!(p.user_email, "sakura.chen@gmx.de");
}

#[test]
fn machine_id_marks_the_bytes_as_version_4() {
    let bytes = [0u8, 0x11, 0x22, 0x33, 0x44, 0x55, 0xff, 0x77, 0xff, 0x99, 0xaa, 0xbb, 0xcc, 0xdd, 0xee, 0xff];
    assert_eq!(machine_id_from_bytes(bytes).0, "0011223344554f77bf99aabbccddeeff");
    assert_eq!(machine_id_from_bytes([0u8; 16]).0, "00000000000040008000000000000000");
}

#[test]
fn mac_clears_the_locally_administered_bit() {
    assert_eq!(mac_from_parts([0x52, 0x54, 0x00], [0x0a, 0xbc, 0xff]).0, "50:54:00:0a:bc:ff");
    assert_eq!(mac_from_parts([0x02, 0x11, 0x22], [1, 2, 3]).0, "00:11:22:01:02:03");
}

#[test]
fn locale_variations() {
    let region = Region { name: "Germany".into(), has_macos_share: false, primary_lang: "de_DE".into() };
    let plain = locale_combo_from(&region, None);
    assert_eq!((plain.lang.as_str(), plain.lc_time.as_str(), plain.lc_numeric.as_str()), ("de_DE.UTF-8", "de_DE.UTF-8", "de_DE.UTF-8"));
    let time = locale_combo_from(&region, Some(true));
    assert_eq!(time.lc_time, "en_US.UTF-8");
    assert_eq!(time.lc_numeric, "de_DE.UTF-8");
    let num = locale_combo_from(&region, Some(false));
    assert_eq!(num.lc_time, "de_DE.UTF-8");
    assert_eq!(num.lc_numeric, "de_DE.UTF-8");
    assert_eq!(num.tz, "Europe/London");
}

#[test]
fn hostnames_from_the_draws() {
    assert_eq!(hostname_from(0, 1, 2, 0), "james-xps");
    assert_eq!(hostname_from(1, 3, 0, 0), "sakuras-macbook-pro");
    assert_eq!(hostname_from(3, 2, 0, 42), "hr-ws-0042");
    assert_eq!(hostname_from(2, 2, 0, 7), "dev-box-7");
}

#[test]
fn font_list_from_the_draws() {
    let fonts: Vec<String> = fonts_from(&vec![4], &vec![0, 0, 3]).into_iter().map(|f| f.0).collect();
    assert_eq!(fonts.len(), 16);
    assert_eq!(fonts[0], "Arial");
    assert_eq!(fonts[11], "Palatino Linotype");
    assert_eq!(&fonts[12..], &["DejaVu Sans", "Liberation Sans", "Liberation Sans", "Roboto"]);
}
