use rdma_kv::descriptor::decode_descriptor;
use rdma_kv::descriptor::encode_descriptor;
use rdma_kv::descriptor::ConnectionDescriptor;
use rdma_kv::descriptor::DESCRIPTOR_LEN;
use rdma_kv::errors::RdmaError;
use rdma_kv::gid::Gid;

fn sample_gid() -> Gid {
    Gid { raw: [1, 2, 3, 4, 5, 6, 7, 8, 9, 10, 11, 12, 13, 14, 15, 16] }
}

fn sample_descriptor() -> ConnectionDescriptor {
    ConnectionDescriptor {
        addr: 0x0102030405060708,
        rkey: 0x11223344,
        qp_num: 0x55667788,
        lid: 0xabcd,
        gid: sample_gid(),
    }
}

#[test]
fn descriptor_round_trip() {
    let d = sample_descriptor();
    let bytes = encode_descriptor(&d);
    assert_eq!(bytes.len(), DESCRIPTOR_LEN);
    assert_eq!(decode_descriptor(&bytes).unwrap(), d);
}

#[test]
fn descriptor_exact_layout() {
    // Integers little-endian in field order, then the sixteen GID bytes.
    let bytes = encode_descriptor(&sample_descriptor());
    assert_eq!(&bytes[0..8], &[0x08, 0x07, 0x06, 0x05, 0x04, 0x03, 0x02, 0x01]);
    assert_eq!(&bytes[8..12], &[0x44, 0x33, 0x22, 0x11]);
    assert_eq!(&bytes[12..16], &[0x88, 0x77, 0x66, 0x55]);
    assert_eq!(&bytes[16..18], &[0xcd, 0xab]);
    assert_eq!(&bytes[18..34], &sample_gid().raw);
}

#[test]
fn descriptor_wrong_length_is_refused() {
    let bytes = encode_descriptor(&sample_descriptor());
    assert_eq!(decode_descriptor(&bytes[..33]), Err(RdmaError::BootstrapIoError));
    let mut longer = bytes.clone();
    longer.push(0);
    assert_eq!(decode_descriptor(&longer), Err(RdmaError::BootstrapIoError));
    assert_eq!(decode_descriptor(&[]), Err(RdmaError::BootstrapIoError));
}

#[test]
fn bootstrap_exchange_round_trip() {
    // Both peers write their own descriptor and read the other's; each
    // records exactly what the other computed locally.
    let here = sample_descriptor();
    let there = ConnectionDescriptor {
        addr: 0xdeadbeef00112233,
        rkey: 7,
        qp_num: 42,
        lid: 3,
        gid: Gid { raw: [0xff; 16] },
    };
    let wire_here_to_there = encode_descriptor(&here);
    let wire_there_to_here = encode_descriptor(&there);
    let recorded_there = decode_descriptor(&wire_here_to_there).unwrap();
    let recorded_here = decode_descriptor(&wire_there_to_here).unwrap();
    assert_eq!(recorded_there, here);
    assert_eq!(recorded_here, there);
}

#[test]
fn gid_halves_read_big_endian() {
    let g = sample_gid();
    assert_eq!(g.subnet_prefix(), 0x0102030405060708);
    assert_eq!(g.interface_id(), 0x090a0b0c0d0e0f10);
    let zero = Gid::default();
    assert_eq!(zero.subnet_prefix(), 0);
    assert_eq!(zero.interface_id(), 0);
}
