use imperator_save::extraction::Encoding;
use imperator_save::header::update_header;
use imperator_save::{ImperatorErrorKind, SaveHeader, SaveHeaderKind};

fn written(header: &SaveHeader) -> Vec<u8> {
    let mut out = Vec::new();
    header.write(&mut out).unwrap();
    out
}

#[test]
fn header_of_a_save() {
    let data = b"SAV0102a40f789f000067c4\n";
    let header = SaveHeader::from_slice(&data[..]).unwrap();
    assert_eq!(header.version(), 1);
    assert_eq!(header.kind(), SaveHeaderKind::UnifiedText);
    assert_eq!(header.header_len(), 24);
    assert_eq!(header.metadata_len(), 26564);
    assert!(!header.is_binary());
    assert_eq!(written(&header), data.to_vec());
}

#[test]
fn header_may_end_in_a_carriage_return() {
    let data = b"SAV0102a40f789f000067c4\r\nrest";
    let header = SaveHeader::from_slice(&data[..]).unwrap();
    assert_eq!(header.kind(), SaveHeaderKind::UnifiedText);
    assert_eq!(header.header_len(), 25);
    assert_eq!(header.metadata_len(), 26564);
    assert_eq!(written(&header), b"SAV0102a40f789f000067c4\r\n".to_vec());
}

#[test]
fn header_of_the_long_layout() {
    let data = b"SAV0203fbf95f030006353800000000\n";
    let header = SaveHeader::from_slice(&data[..]).unwrap();
    assert_eq!(header.version(), 2);
    assert_eq!(header.kind(), SaveHeaderKind::UnifiedBinary);
    assert!(header.is_binary());
    assert_eq!(header.header_len(), 32);
    assert_eq!(header.metadata_len(), 0x63538);
    assert_eq!(written(&header), data.to_vec());
    let data = b"SAV0203fbf95f030006353800000000\r\n";
    let header = SaveHeader::from_slice(&data[..]).unwrap();
    assert_eq!(header.header_len(), 33);
    assert_eq!(written(&header), data.to_vec());
}

#[test]
fn header_kinds() {
    for (text, kind, encoding) in [
        ("00", SaveHeaderKind::Text, Some(Encoding::Text)),
        ("01", SaveHeaderKind::Binary, Some(Encoding::Binary)),
        ("02", SaveHeaderKind::UnifiedText, Some(Encoding::TextZip)),
        ("03", SaveHeaderKind::UnifiedBinary, Some(Encoding::BinaryZip)),
        ("04", SaveHeaderKind::SplitText, Some(Encoding::TextZip)),
        ("05", SaveHeaderKind::SplitBinary, Some(Encoding::BinaryZip)),
    ] {
        let data = format!("SAV01{}80b859da00000000\n", text);
        let header = SaveHeader::from_slice(data.as_bytes()).unwrap();
        assert_eq!(header.kind(), kind);
        assert_eq!(header.kind().value(), SaveHeaderKind::new(kind.value()).value());
        assert_eq!(header.kind().is_binary(), kind.value() % 2 == 1 && kind.value() < 6);
        assert_eq!(header.kind().is_text(), kind.value() % 2 == 0 && kind.value() < 6);
        assert_eq!(Encoding::of_header(header.kind()), encoding);
    }
    assert_eq!(SaveHeaderKind::new(0x1f), SaveHeaderKind::Other(0x1f));
    assert_eq!(SaveHeaderKind::Other(0x1f).value(), 0x1f);
    assert_eq!(Encoding::of_header(SaveHeaderKind::Other(0x1f)), None);
    for text in ["06", "1f", "1F", "ff"] {
        let data = format!("SAV01{}80b859da00000000\n", text);
        let error = SaveHeader::from_slice(data.as_bytes()).unwrap_err();
        assert!(matches!(error.kind(), ImperatorErrorKind::InvalidHeader));
    }
}

#[test]
fn header_setters() {
    let mut header = SaveHeader::from_slice(b"SAV0103daabb23800062a40\n").unwrap();
    assert_eq!(header.metadata_len(), 404032);
    header.set_kind(SaveHeaderKind::Text);
    header.set_metadata_len(0xabc);
    assert_eq!(header.kind(), SaveHeaderKind::Text);
    assert_eq!(header.metadata_len(), 0xabc);
    assert_eq!(written(&header), b"SAV0100daabb23800000abc\n".to_vec());
    header.set_kind(SaveHeaderKind::Other(0xff));
    header.set_metadata_len(0xffff_ffff);
    assert_eq!(header.header_len(), 24);
    assert_eq!(written(&header), b"SAV01ffdaabb238ffffffff\n".to_vec());
}

#[test]
fn header_that_does_not_fit_its_line_is_not_written() {
    let mut header = SaveHeader::from_slice(b"SAV0103daabb23800062a40\n").unwrap();
    header.set_kind(SaveHeaderKind::Other(0x1234));
    let mut out = b"before".to_vec();
    let error = header.write(&mut out).unwrap_err();
    assert!(matches!(error.kind(), ImperatorErrorKind::InvalidHeader));
    assert_eq!(out, b"before".to_vec());
    header.set_kind(SaveHeaderKind::Other(0x100));
    assert!(header.write(&mut out).is_err());
    header.set_kind(SaveHeaderKind::Text);
    header.set_metadata_len(0x1_0000_0000);
    assert_eq!(header.metadata_len(), 0x1_0000_0000);
    let error = header.write(&mut out).unwrap_err();
    assert!(matches!(error.kind(), ImperatorErrorKind::InvalidHeader));
    assert_eq!(out, b"before".to_vec());
    header.set_metadata_len(0xffff_ffff);
    header.write(&mut out).unwrap();
    assert_eq!(out, b"beforeSAV0100daabb238ffffffff\n".to_vec());
}

#[test]
fn what_is_no_header() {
    for data in [
        &b""[..],
        &b"SAV0102a40f789f000067c4"[..],
        &b"SAX0102a40f789f000067c4\n"[..],
        &b"SAV0g02a40f789f000067c4\n"[..],
        &b"SAV010ga40f789f000067c4\n"[..],
        &b"SAV0102a40f789f00006 c4\n"[..],
        &b"SAV0102a40f789f000067c4 \n"[..],
        &b"SAV0102a40f789f000067c40000000\n"[..],
        &b"SAV0102a40f789f000067c4000000000\n"[..],
        &b"SAV0102a40f\n89f000067c4\n"[..],
        &b"SAV0102a40f789f000067c4000000000000\n"[..],
        &b"SAV-102a40f789f000067c4\n"[..],
    ] {
        let error = SaveHeader::from_slice(data).unwrap_err();
        assert!(matches!(error.kind(), ImperatorErrorKind::InvalidHeader));
    }
}

#[test]
fn header_agrees_with_the_header_of_jomini() {
    for data in [
        &b"SAV0102a40f789f000067c4\n"[..],
        &b"SAV0102a40f789f000067c4\r\n"[..],
        &b"SAV010580b859da00000000\n"[..],
        &b"SAV0203fbf95f030006353800000000\n"[..],
        &b"SAV0203fbf95f030006353800000000\r\n"[..],
        &b"SAV+1+2a40f789f+00067C4\n"[..],
        &b"SAV0102a40f789f000067c4"[..],
        &b"SAX0102a40f789f000067c4\n"[..],
        &b"SAV0102a40f789f00006 c4\n"[..],
        &b"SAV0102a40f\n89f000067c4\n"[..],
        &b"SAV0102a40f789f000067c4000000000\n"[..],
        &b"SAV-102a40f789f000067c4\n"[..],
        &b"SAV0102a40f789f000067c4\rx\n"[..],
        &b"SAV01020000\r\n9f000067c4\n"[..],
    ] {
        let mine = SaveHeader::from_slice(data);
        let other = jomini::envelope::SaveHeader::from_slice(data);
        match (mine, other) {
            (Ok(a), Ok(b)) => {
                assert_eq!(a.version(), b.version());
                assert_eq!(a.kind().value(), b.kind().value());
                assert_eq!(a.header_len(), b.header_len());
                assert_eq!(a.metadata_len(), b.metadata_len());
                let mut out = Vec::new();
                b.write(&mut out).unwrap();
                assert_eq!(written(&a), out);
            }
            (Err(_), Err(_)) => {}
            (a, b) => panic!("headers disagree on {:?}: {:?} and {:?}", data, a, b),
        }
    }
}

#[test]
fn update_header_rewrites_the_line_in_place() {
    let header = SaveHeader::from_slice(b"SAV0103a40f789f000067c4\n").unwrap();
    let mut data = b"SAV0103a40f789f000067c4\nabc".to_vec();
    update_header(&mut data, header).unwrap();
    assert_eq!(data, b"SAV0100a40f789f00000004\nabc".to_vec());
    let mut data = b"SAV0103a40f789f000067c4\n".to_vec();
    update_header(&mut data, header).unwrap();
    assert_eq!(data, b"SAV0100a40f789f00000001\n".to_vec());
    let long = SaveHeader::from_slice(b"SAV0203fbf95f030006353800000000\r\n").unwrap();
    let mut data = b"SAV0203fbf95f030006353800000000\r\n0123456789abcdef".to_vec();
    update_header(&mut data, long).unwrap();
    assert_eq!(data, b"SAV0200fbf95f030000001100000000\r\n0123456789abcdef".to_vec());
    // the kind and the length that the header held do not matter
    let mut odd = header;
    odd.set_kind(SaveHeaderKind::Other(0x1234));
    odd.set_metadata_len(u64::MAX);
    let mut data = b"SAV0103a40f789f000067c4\nabc".to_vec();
    update_header(&mut data, odd).unwrap();
    assert_eq!(data, b"SAV0100a40f789f00000004\nabc".to_vec());
}
