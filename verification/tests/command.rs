//! Commands as they are read off the wire, and how they count.

use ioutgt::command::{
    count_command, count_end, dsm_ranges, transfer_bytes, Connect, IoCommand, IO_FLUSH, IO_READ,
    IO_WRITE_ZEROES,
};
use ioutgt::file::LbaRange;
use ioutgt::nvme::{Sqe, IO_DSM, IO_WRITE};
use ioutgt::queue::{NoTransport, QueueStats};

fn rw_sqe(opcode: u8, slba: u64, nlb0: u16) -> Sqe {
    let mut s = Sqe::zeroed();
    s.bytes[0] = opcode;
    s.bytes[40..48].copy_from_slice(&slba.to_le_bytes());
    s.bytes[48..50].copy_from_slice(&nlb0.to_le_bytes());
    s
}

#[test]
fn io_commands() {
    let slba = 0x1_2345_6789;
    assert_eq!(IoCommand::parse(&rw_sqe(IO_READ, slba, 7)), IoCommand::Read { slba, nlb: 8 });
    assert_eq!(
        IoCommand::parse(&rw_sqe(IO_WRITE, 0, 0xFFFF)),
        IoCommand::Write { slba: 0, nlb: 65_536 }
    );
    assert_eq!(
        IoCommand::parse(&rw_sqe(IO_WRITE_ZEROES, 9, 0)),
        IoCommand::WriteZeroes { slba: 9, nlb: 1 }
    );
    assert_eq!(IoCommand::parse(&rw_sqe(IO_FLUSH, 9, 3)), IoCommand::Flush);
    assert_eq!(IoCommand::parse(&rw_sqe(0x55, 9, 3)), IoCommand::Unknown);
    let mut d = rw_sqe(IO_DSM, 0, 0);
    d.bytes[40] = 2;
    assert_eq!(IoCommand::parse(&d), IoCommand::Dataset { ranges: 3, deallocate: false });
    d.bytes[44] = 4;
    assert_eq!(IoCommand::parse(&d), IoCommand::Dataset { ranges: 3, deallocate: true });
}

#[test]
fn transfers_are_limited() {
    assert_eq!(transfer_bytes(8, 9), Some(4096));
    assert_eq!(transfer_bytes(256, 9), Some(131_072));
    assert_eq!(transfer_bytes(257, 9), None);
    assert_eq!(transfer_bytes(u32::MAX, 12), None);
}

#[test]
fn deallocation_lists() {
    let mut data = vec![0u8; 32];
    data[4..8].copy_from_slice(&100u32.to_le_bytes());
    data[8..16].copy_from_slice(&5u64.to_le_bytes());
    data[20..24].copy_from_slice(&7u32.to_le_bytes());
    data[24..32].copy_from_slice(&(1u64 << 40).to_le_bytes());
    let want = vec![LbaRange { slba: 5, nlb: 100 }, LbaRange { slba: 1 << 40, nlb: 7 }];
    assert_eq!(dsm_ranges(&data, 2), Some(want));
    assert_eq!(dsm_ranges(&data, 3), None);
    assert_eq!(dsm_ranges(&data, 0), Some(vec![]));
}

#[test]
fn connect_fields() {
    let mut sqe = Sqe::zeroed();
    sqe.bytes[0] = 0x7F;
    sqe.bytes[4] = 0x01;
    sqe.bytes[42] = 3;
    sqe.bytes[44] = 31;
    sqe.bytes[46] = 4;
    sqe.bytes[48..52].copy_from_slice(&60_000u32.to_le_bytes());
    let mut data = vec![0u8; 1024];
    data[16..18].copy_from_slice(&0xFFFFu16.to_le_bytes());
    data[256..259].copy_from_slice(b"sub");
    data[512..768].copy_from_slice(&[b'h'; 256]);
    let c = Connect::parse(&sqe, &data).unwrap();
    assert_eq!((c.qid, c.sqsize, c.kato_ms, c.cntlid), (3, 31, 60_000, 0xFFFF));
    assert!(c.sqhd_disabled);
    assert_eq!(c.subsysnqn, b"sub".to_vec());
    assert_eq!(c.hostnqn.len(), 256, "a name may fill its field");
    assert_eq!(Connect::parse(&sqe, &data[..1023]), None);
    sqe.bytes[4] = 0x04;
    assert_eq!(Connect::parse(&sqe, &data), None);
}

#[test]
fn commands_are_counted_once() {
    let mut s: QueueStats<NoTransport> = QueueStats::new(1);
    let read = IoCommand::Read { slba: 0, nlb: 8 };
    let write = IoCommand::Write { slba: 0, nlb: 8 };
    count_command(&mut s, Some(read));
    count_end(&mut s, read, Some(4096));
    count_command(&mut s, Some(write));
    count_end(&mut s, write, Some(512));
    count_command(&mut s, Some(IoCommand::Flush));
    count_end(&mut s, IoCommand::Flush, Some(0));
    count_command(&mut s, Some(read));
    count_end(&mut s, read, None);
    count_command(&mut s, None);
    let t = s.snapshot();
    assert_eq!((t.read_cmds, t.write_cmds, t.flush_cmds, t.other_cmds), (2, 1, 1, 1));
    assert_eq!((t.read_bytes, t.write_bytes, t.errors), (4096, 512, 1));
}
