use watt::collect::apple_gpu::{
    channel_use, gpu_display_name, gpu_name, hz_to_mhz, key_code, key_name, parse_dvfs_freqs,
    residency_split, value_bytes, ChannelUse, KeyInfo, SmcConn, SmcReply, SmcRequest, TempKeyScan,
    FLOAT_TYPE,
};

#[test]
fn key_codes_are_four_character_codes() {
    assert_eq!(key_code("#KEY"), 0x234B_4559);
    assert_eq!(key_code("flt "), FLOAT_TYPE);
    assert_eq!(key_code("Tg0P"), u32::from_be_bytes(*b"Tg0P"));
    assert_eq!(key_code(""), 0);
    assert_eq!(key_code("ABCDE"), u32::from_be_bytes(*b"BCDE"));
}

#[test]
fn key_names_decode_codes() {
    assert_eq!(key_name(0x234B_4559).as_deref(), Some("#KEY"));
    assert_eq!(key_name(u32::from_be_bytes(*b"TG0D")).as_deref(), Some("TG0D"));
    assert_eq!(key_name(0xFFFF_FFFF), None);
    for k in ["Tg05", "TC0P", "#KEY", "PSTR"] {
        assert_eq!(key_code(&key_name(key_code(k)).unwrap()), key_code(k));
    }
}

#[test]
fn value_bytes_take_the_announced_size() {
    let reply: Vec<u8> = (0..32).collect();
    let ki = KeyInfo { data_size: 4, data_type: FLOAT_TYPE, data_attributes: 0 };
    assert_eq!(value_bytes(&reply, ki), vec![0, 1, 2, 3]);
    let ki = KeyInfo { data_size: 0, data_type: 0, data_attributes: 0 };
    assert!(value_bytes(&reply, ki).is_empty());
}

#[test]
fn dvfs_table_frequencies() {
    assert_eq!(parse_dvfs_freqs(&[]), None);
    let mut data: Vec<u8> = Vec::new();
    for (f, v) in [(396_000_000u32, 600u32), (1_398_000_000, 900)] {
        data.extend_from_slice(&f.to_le_bytes());
        data.extend_from_slice(&v.to_le_bytes());
    }
    data.extend_from_slice(&[1, 2, 3]);
    let freqs = parse_dvfs_freqs(&data).unwrap();
    assert_eq!(freqs, vec![396_000_000, 1_398_000_000]);
    assert_eq!(hz_to_mhz(&freqs), vec![396, 1398]);
    assert_eq!(parse_dvfs_freqs(&[1, 2, 3]), Some(vec![]));
}

#[test]
fn channels_are_classified() {
    assert_eq!(channel_use("Energy Model", "", "GPU Energy", "mJ"), ChannelUse::Energy { per_joule: 1_000, gpu: true });
    assert_eq!(channel_use("Energy Model", "", "CPU Energy", "nJ"), ChannelUse::Energy { per_joule: 1_000_000_000, gpu: false });
    assert_eq!(channel_use("Energy Model", "", "DRAM", "uJ"), ChannelUse::Energy { per_joule: 1_000_000, gpu: false });
    assert_eq!(channel_use("Energy Model", "", "GPU Energy", "W"), ChannelUse::Ignored);
    assert_eq!(channel_use("GPU Stats", "GPU Performance States", "GPUPH", ""), ChannelUse::GpuStates);
    assert_eq!(channel_use("GPU Stats", "GPU Performance States", "GPUPH2", ""), ChannelUse::Ignored);
    assert_eq!(channel_use("CPU Stats", "", "", ""), ChannelUse::Ignored);
}

#[test]
fn residencies_split_at_first_active_state() {
    let states = vec![
        ("OFF".to_string(), 100i64),
        ("IDLE".to_string(), 300),
        ("P1".to_string(), 50),
        ("DOWN".to_string(), 25),
        ("P2".to_string(), 25),
    ];
    assert_eq!(residency_split(&states), (100, 500));
    let idle = vec![("IDLE".to_string(), 7i64)];
    assert_eq!(residency_split(&idle), (0, 7));
    assert_eq!(residency_split(&[]), (0, 0));
}

#[test]
fn gpu_display_names() {
    assert_eq!(gpu_display_name(Some("Apple M2 Pro"), Some("19")), "Apple M2 Pro (19-core GPU)");
    assert_eq!(gpu_display_name(Some("Apple M1"), Some("0")), "Apple M1");
    assert_eq!(gpu_display_name(None, Some("+8")), "Apple GPU (8-core GPU)");
    assert_eq!(gpu_display_name(None, Some("eight")), "Apple GPU");
    assert_eq!(gpu_display_name(Some("X"), None), "X");
}

#[test]
fn gpu_name_from_profiler_report() {
    let doc = br#"{"SPHardwareDataType":[{"chip_type":"Apple M3 Max"}],"SPDisplaysDataType":[{"sppci_cores":"40"}]}"#;
    assert_eq!(gpu_name(doc).as_deref(), Some("Apple M3 Max (40-core GPU)"));
    let doc = br#"{"SPHardwareDataType":[{}]}"#;
    assert_eq!(gpu_name(doc).as_deref(), Some("Apple GPU"));
    assert_eq!(gpu_name(b"not json"), None);
}

struct FakeSmc {
    keys: Vec<&'static str>,
}

impl FakeSmc {
    fn info(&self, code: u32) -> Option<KeyInfo> {
        let name = String::from_utf8(code.to_be_bytes().to_vec()).ok()?;
        match name.as_str() {
            "#KEY" => Some(KeyInfo { data_size: 4, data_type: 0, data_attributes: 0 }),
            "Tg0A" | "Tg0B" => Some(KeyInfo { data_size: 4, data_type: FLOAT_TYPE, data_attributes: 0 }),
            "Tg0C" => Some(KeyInfo { data_size: 2, data_type: 0, data_attributes: 0 }),
            "Tg0D" => Some(KeyInfo { data_size: 4, data_type: FLOAT_TYPE, data_attributes: 0 }),
            _ => None,
        }
    }

    fn value(&self, code: u32) -> Option<Vec<u8>> {
        let name = String::from_utf8(code.to_be_bytes().to_vec()).ok()?;
        let mut out = vec![0u8; 32];
        match name.as_str() {
            "#KEY" => {
                out[..4].copy_from_slice(&(self.keys.len() as u32).to_be_bytes());
                Some(out)
            }
            "Tg0D" => None,
            _ => Some(out),
        }
    }
}

#[test]
fn temperature_key_scan() {
    let smc_dev = FakeSmc { keys: vec!["TC0P", "Tg0A", "Tg0C", "Tg0D", "Tg0B", "Tg0E"] };
    let mut smc = SmcConn::new(1);
    let (mut scan, mut req) = TempKeyScan::start(&smc);
    let mut info_requests = 0;
    loop {
        let reply = match req {
            SmcRequest::KeyInfo(code) => {
                info_requests += 1;
                SmcReply::KeyInfo(smc_dev.info(code))
            }
            SmcRequest::Value(code, _) => SmcReply::Value(smc_dev.value(code)),
            SmcRequest::KeyAt(i) => SmcReply::KeyAt(smc_dev.keys.get(i as usize).map(|k| u32::from_be_bytes(k.as_bytes().try_into().unwrap()))),
            SmcRequest::Finished => break,
        };
        req = scan.resume(&mut smc, reply);
    }
    let keys: Vec<&str> = scan.keys.iter().map(|s| s.as_str()).collect();
    assert_eq!(keys, vec!["Tg0A", "Tg0B"]);
    // #KEY, Tg0A, Tg0C, Tg0D, Tg0B, Tg0E
    assert_eq!(info_requests, 6);
    // a second scan asks again only for keys the SMC did not describe
    let (mut scan2, mut req) = TempKeyScan::start(&smc);
    let mut info_requests = 0;
    loop {
        let reply = match req {
            SmcRequest::KeyInfo(code) => {
                info_requests += 1;
                SmcReply::KeyInfo(smc_dev.info(code))
            }
            SmcRequest::Value(code, _) => SmcReply::Value(smc_dev.value(code)),
            SmcRequest::KeyAt(i) => SmcReply::KeyAt(smc_dev.keys.get(i as usize).map(|k| u32::from_be_bytes(k.as_bytes().try_into().unwrap()))),
            SmcRequest::Finished => break,
        };
        req = scan2.resume(&mut smc, reply);
    }
    assert_eq!(scan2.keys, scan.keys);
    assert_eq!(info_requests, 1);
}

#[test]
fn scan_without_key_count_finds_nothing() {
    let mut smc = SmcConn::new(1);
    let (mut scan, req) = TempKeyScan::start(&smc);
    assert_eq!(req, SmcRequest::KeyInfo(0x234B_4559));
    let req = scan.resume(&mut smc, SmcReply::KeyInfo(None));
    assert_eq!(req, SmcRequest::Finished);
    assert!(scan.keys.is_empty());
}
