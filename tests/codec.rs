use socktop::proto::{decode_processes_bytes, encode_processes_bytes};
use socktop::types::{ProcessInfo, ProcessesPayload};
use socktop::wire::{decode_processes, encode_processes, encode_text, frame_bytes, DecodeError, Frame};
use std::io::Read;

fn row(pid: u32, name: &str, cpu: f32, mem: u64) -> ProcessInfo {
    ProcessInfo { pid, name: name.to_string(), cpu_usage_bits: cpu.to_bits(), mem_bytes: mem }
}

fn payload(n: u32) -> ProcessesPayload {
    let rows: Vec<ProcessInfo> =
        (0..n).map(|i| row(i + 1, &format!("process-{i}-ü"), i as f32 * 0.5, 4096 * i as u64)).collect();
    ProcessesPayload { process_count: n as u64 + 3, top_processes: rows }
}

fn same(a: &ProcessesPayload, b: &ProcessesPayload) -> bool {
    a.process_count == b.process_count
        && a.top_processes.len() == b.top_processes.len()
        && a.top_processes.iter().zip(b.top_processes.iter()).all(|(x, y)| {
            x.pid == y.pid && x.name == y.name && x.cpu_usage_bits == y.cpu_usage_bits && x.mem_bytes == y.mem_bytes
        })
}

fn gunzip(b: &[u8]) -> Option<Vec<u8>> {
    let mut out = Vec::new();
    flate2::read::GzDecoder::new(b).read_to_end(&mut out).ok().map(|_| out)
}

#[test]
fn small_process_list_round_trips_uncompressed() {
    let p = payload(3);
    let raw = encode_processes_bytes(&p);
    assert!(raw.len() <= 768);
    let f = encode_processes(&p);
    match &f {
        Frame::Binary(b) => {
            assert_eq!(b, &raw);
            assert!(gunzip(b).is_none());
        }
        _ => panic!("expected a binary frame"),
    }
    let back = decode_processes(&f).expect("decodes");
    assert!(same(&back, &p));
}

#[test]
fn large_process_list_round_trips_gzip() {
    let p = payload(200);
    let raw = encode_processes_bytes(&p);
    assert!(raw.len() > 768);
    let f = encode_processes(&p);
    match &f {
        Frame::Binary(b) => {
            assert_ne!(b, &raw);
            assert_eq!(gunzip(b).expect("gzip stream"), raw);
        }
        _ => panic!("expected a binary frame"),
    }
    let back = decode_processes(&f).expect("decodes");
    assert!(same(&back, &p));
}

#[test]
fn known_encoding_of_one_row() {
    let p = ProcessesPayload { process_count: 1, top_processes: vec![row(300, "a", 20.0, 5)] };
    let raw = encode_processes_bytes(&p);
    let expected: Vec<u8> = vec![
        0x08, 0x01, 0x12, 0x0d, 0x08, 0xac, 0x02, 0x12, 0x01, b'a', 0x1d, 0x00, 0x00, 0xa0, 0x41, 0x20, 0x05,
    ];
    assert_eq!(raw, expected);
    let back = decode_processes_bytes(&raw).expect("decodes");
    assert!(same(&back, &p));
}

#[test]
fn empty_list_and_defaults() {
    let p = ProcessesPayload { process_count: 0, top_processes: vec![row(0, "", 0.0, 0)] };
    let raw = encode_processes_bytes(&p);
    assert_eq!(raw, vec![0x12, 0x00]);
    assert!(same(&decode_processes_bytes(&raw).unwrap(), &p));
    let none = ProcessesPayload { process_count: 0, top_processes: vec![] };
    assert!(encode_processes_bytes(&none).is_empty());
    assert!(same(&decode_processes_bytes(&vec![]).unwrap(), &none));
}

#[test]
fn malformed_bytes_are_refused() {
    // over-long varint, unknown tag, truncated row, invalid utf-8 name
    assert!(decode_processes_bytes(&vec![0x08, 0x81, 0x00]).is_none());
    assert!(decode_processes_bytes(&vec![0x18, 0x01]).is_none());
    assert!(decode_processes_bytes(&vec![0x12, 0x05, 0x08]).is_none());
    assert!(decode_processes_bytes(&vec![0x12, 0x03, 0x12, 0x01, 0xff]).is_none());
    // a zero count written out is not the encoding of any list
    assert!(decode_processes_bytes(&vec![0x08, 0x00]).is_none());
    assert_eq!(decode_processes(&Frame::Binary(vec![0x18])).err(), Some(DecodeError::Malformed));
    assert_eq!(decode_processes(&Frame::Close).err(), Some(DecodeError::Closed));
}

#[test]
fn text_payloads_follow_the_threshold() {
    let small = "[{\"name\":\"sda\"}]".to_string();
    match encode_text(small.clone()) {
        Frame::Text(t) => assert_eq!(t, small),
        _ => panic!("expected a text frame"),
    }
    let big = format!("[{}]", vec!["{\"name\":\"nvme0n1\",\"total\":1,\"available\":0}"; 40].join(","));
    assert!(big.len() > 768);
    let f = encode_text(big.clone());
    match &f {
        Frame::Binary(b) => assert_eq!(gunzip(b).unwrap(), big.as_bytes().to_vec()),
        _ => panic!("expected a binary frame"),
    }
    assert_eq!(frame_bytes(&f).unwrap(), big.as_bytes().to_vec());
    assert_eq!(frame_bytes(&Frame::Text(small.clone())).unwrap(), small.as_bytes().to_vec());
    // binary bytes that are not a gzip stream are taken as they are
    assert_eq!(frame_bytes(&Frame::Binary(b"{}".to_vec())).unwrap(), b"{}".to_vec());
    assert!(frame_bytes(&Frame::Close).is_none());
}
