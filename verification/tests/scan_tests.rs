use port_scanner::config::{ScanConfig, ScanTechnique};
use port_scanner::receiver::{open_ports, Receiver, ReplySegment};
use port_scanner::sender::Sender;

const SYN_ACK: u8 = 0x12;
const RST_ACK: u8 = 0x14;

fn config(technique: ScanTechnique, max_port: u16) -> ScanConfig {
    ScanConfig {
        src_addr: [192, 168, 0, 2],
        dst_addr: [192, 168, 0, 10],
        src_port: 54321,
        max_port,
        technique,
    }
}

fn reply(src_port: u16, flags: u8) -> ReplySegment {
    ReplySegment { dest_port: 54321, src_port, flags }
}

#[test]
fn open_ports_complement() {
    let replies: Vec<u16> = vec![1, 2, 4, 5];
    assert_eq!(open_ports(&replies, 5), vec![3]);
    let none_replied: Vec<u16> = Vec::new();
    assert_eq!(open_ports(&none_replied, 3), vec![1, 2, 3]);
    let all_replied: Vec<u16> = vec![2, 1, 3];
    assert_eq!(open_ports(&all_replied, 3), Vec::<u16>::new());
    let with_duplicates: Vec<u16> = vec![2, 2, 2];
    assert_eq!(open_ports(&with_duplicates, 3), vec![1, 3]);
    // replies outside the probed range do not matter
    let stray: Vec<u16> = vec![9];
    assert_eq!(open_ports(&stray, 2), vec![1, 2]);
}

#[test]
fn syn_reply_classification() {
    let mut receiver = Receiver::new(config(ScanTechnique::Syn, 5));
    // SYN+ACK from port 2: open, reported once
    assert_eq!(receiver.observe(reply(2, SYN_ACK)), vec![2]);
    assert!(!receiver.done);
    // RST+ACK from port 4: never reported
    assert_eq!(receiver.observe(reply(4, RST_ACK)), Vec::<u16>::new());
    assert!(!receiver.done);
    // a duplicate SYN+ACK simply re-reports
    assert_eq!(receiver.observe(reply(2, SYN_ACK)), vec![2]);
}

#[test]
fn foreign_traffic_is_discarded() {
    let mut receiver = Receiver::new(config(ScanTechnique::Null, 5));
    // wrong destination port: not recorded, and not terminating even
    // though the origin is the maximum port
    let foreign = ReplySegment { dest_port: 1111, src_port: 5, flags: RST_ACK };
    assert_eq!(receiver.observe(foreign), Vec::<u16>::new());
    assert!(!receiver.done);
    assert!(receiver.reply_ports.is_empty());
}

#[test]
fn scenario_syn_scan() {
    // maxPort 5, Syn: port 3 answers SYN+ACK, port 5 answers RST+ACK,
    // which only terminates the scan
    let mut receiver = Receiver::new(config(ScanTechnique::Syn, 5));
    assert_eq!(receiver.observe(reply(3, SYN_ACK)), vec![3]);
    assert!(!receiver.done);
    assert_eq!(receiver.observe(reply(5, RST_ACK)), Vec::<u16>::new());
    assert!(receiver.done);
}

#[test]
fn scenario_null_scan() {
    // maxPort 5, Null: RST replies from 1, 2, 4 and 5; port 3 silent;
    // port 5's reply terminates and yields the report
    let mut receiver = Receiver::new(config(ScanTechnique::Null, 5));
    for port in [1u16, 2, 4] {
        assert_eq!(receiver.observe(reply(port, RST_ACK)), Vec::<u16>::new());
        assert!(!receiver.done);
    }
    assert_eq!(receiver.observe(reply(5, RST_ACK)), vec![3]);
    assert!(receiver.done);
}

#[test]
fn boundary_single_port_syn() {
    // maxPort 1: the first reply classifies and terminates in one step
    let mut receiver = Receiver::new(config(ScanTechnique::Syn, 1));
    assert_eq!(receiver.observe(reply(1, SYN_ACK)), vec![1]);
    assert!(receiver.done);
}

#[test]
fn boundary_single_port_null() {
    let mut receiver = Receiver::new(config(ScanTechnique::Null, 1));
    // port 1 answered, so nothing is open
    assert_eq!(receiver.observe(reply(1, RST_ACK)), Vec::<u16>::new());
    assert!(receiver.done);
}

#[test]
fn termination_only_on_max_port() {
    let mut receiver = Receiver::new(config(ScanTechnique::Fin, 5));
    for port in [1u16, 2, 3, 4, 4, 1] {
        receiver.observe(reply(port, RST_ACK));
        assert!(!receiver.done);
    }
    receiver.observe(reply(5, RST_ACK));
    assert!(receiver.done);
}

#[test]
fn sender_probes_ports_ascending() {
    let cfg = config(ScanTechnique::Syn, 1);
    let mut sender = Sender::new(cfg);
    assert_eq!(sender.advance(), Some(1));
    assert_eq!(sender.advance(), None);

    let cfg = config(ScanTechnique::Fin, 4);
    let mut sender = Sender::new(cfg);
    let mut probed: Vec<u16> = Vec::new();
    while let Some(port) = sender.advance() {
        // the readied packet addresses the port just returned
        let packet = sender.packet_bytes();
        assert_eq!(packet[2], (port >> 8) as u8);
        assert_eq!(packet[3], (port & 0xff) as u8);
        probed.push(port);
    }
    assert_eq!(probed, vec![1, 2, 3, 4]);
    assert_eq!(sender.advance(), None);
}

#[test]
fn sender_packet_matches_mutated_template() {
    let cfg = config(ScanTechnique::Xmas, 3);
    let mut sender = Sender::new(cfg);
    sender.advance();
    sender.advance();
    let mut expected = port_scanner::probe::build_probe(&cfg);
    port_scanner::probe::reregister_destination_port(&mut expected, 2, &cfg);
    assert_eq!(sender.packet_bytes(), &expected);
}
