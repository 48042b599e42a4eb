use ockam_multiaddr::code::{Checked, Code};
use ockam_multiaddr::codec::{Buffer, Codec, Protocol};
use ockam_multiaddr::error::Error;
use ockam_multiaddr::iter::BytesIter;
use ockam_multiaddr::multiaddr::MultiAddr;
use ockam_multiaddr::proto::{NameCodec, Service, Worker, SERVICE, WORKER};
use ockam_multiaddr::registry::{Registry, RegistryBuilder};
use ockam_multiaddr::text::StrIter;

const UNIX: u32 = 400;

fn registry() -> Registry<NameCodec> {
    let mut b = RegistryBuilder::new();
    b.register(Code::new(SERVICE), "service", NameCodec::new(Code::new(SERVICE), "service", false))
        .unwrap();
    b.register(Code::new(WORKER), "worker", NameCodec::new(Code::new(WORKER), "worker", false))
        .unwrap();
    b.register(Code::new(UNIX), "unix", NameCodec::new(Code::new(UNIX), "unix", true)).unwrap();
    b.build()
}

fn service_only() -> Registry<NameCodec> {
    let mut b = RegistryBuilder::new();
    b.register(Code::new(SERVICE), "service", NameCodec::new(Code::new(SERVICE), "service", false))
        .unwrap();
    b.build()
}

fn service_bytes(name: &[u8]) -> Vec<u8> {
    let mut v = vec![0xbe, 0xe8, 0x03, name.len() as u8];
    v.extend_from_slice(name);
    v
}

fn worker_bytes(name: &[u8]) -> Vec<u8> {
    let mut v = vec![0xbd, 0xe8, 0x03, name.len() as u8];
    v.extend_from_slice(name);
    v
}

#[test]
fn code_keeps_its_number() {
    let c = Code::new(62526);
    assert_eq!(c.value(), 62526);
    assert_eq!(u32::from(c), 62526);
    assert_eq!(c, Code(62526));
    assert!(Code::new(4) < Code::new(6));
    assert_eq!(*Checked(5u8).get(), 5);
}

#[test]
fn registry_lookups() {
    let reg = registry();
    assert_eq!(reg.len(), 3);
    assert_eq!(reg.get_by_code(Code::new(WORKER)).map(|c| c.code), Some(Code::new(WORKER)));
    assert_eq!(reg.get_by_prefix(b"unix").map(|c| c.path), Some(true));
    assert_eq!(reg.get_by_prefix(b"service").map(|c| c.path), Some(false));
    assert!(reg.get_by_code(Code::new(1)).is_none());
    assert!(reg.get_by_prefix(b"servic").is_none());
    assert!(reg.get_by_prefix(b"").is_none());
}

#[test]
fn registry_refuses_collisions() {
    let mut b = RegistryBuilder::new();
    assert_eq!(b.register(Code::new(1), "one", NameCodec::new(Code::new(1), "one", false)), Ok(()));
    assert_eq!(
        b.register(Code::new(1), "uno", NameCodec::new(Code::new(1), "uno", false)),
        Err(Error::DuplicateCode(Code::new(1)))
    );
    assert_eq!(
        b.register(Code::new(2), "one", NameCodec::new(Code::new(2), "one", false)),
        Err(Error::DuplicatePrefix)
    );
    assert_eq!(
        b.register(Code::new(1), "one", NameCodec::new(Code::new(1), "one", false)),
        Err(Error::DuplicateCode(Code::new(1)))
    );
    assert_eq!(b.register(Code::new(2), "two", NameCodec::new(Code::new(2), "two", false)), Ok(()));
    let reg = b.build();
    assert_eq!(reg.len(), 2);
}

#[test]
fn new_address_is_empty() {
    let reg = registry();
    let a = MultiAddr::new(&reg);
    assert!(a.is_empty());
    assert_eq!(a.len(), 0);
    assert_eq!(a.as_ref(), b"");
    assert!(a.first().is_none());
    assert!(a.last().is_none());
    assert_eq!(a.to_string(), Ok(String::new()));
}

#[test]
fn push_back_writes_code_length_and_name() {
    let reg = registry();
    let mut a = MultiAddr::new(&reg);
    assert_eq!(a.push_back(Service::new("echo")), Ok(()));
    assert_eq!(a.as_ref(), &service_bytes(b"echo")[..]);
    assert_eq!(a.len(), 8);
    assert_eq!(a.push_back(Worker::new("w1")), Ok(()));
    let mut expected = service_bytes(b"echo");
    expected.extend_from_slice(&worker_bytes(b"w1"));
    assert_eq!(a.as_ref(), &expected[..]);
    assert_eq!(a.to_string(), Ok(String::from("/service/echo/worker/w1")));
}

#[test]
fn push_back_unregistered_code() {
    let reg = service_only();
    let mut a = MultiAddr::new(&reg);
    a.push_back(Service::new("echo")).unwrap();
    assert_eq!(a.push_back(Worker::new("w1")), Err(Error::UnregisteredCode(Code::new(WORKER))));
    assert_eq!(a.as_ref(), &service_bytes(b"echo")[..]);
}

#[test]
fn round_trip_text_and_bytes() {
    let reg = registry();
    let mut a = MultiAddr::new(&reg);
    a.push_back(Service::new("echo")).unwrap();
    a.push_back(Worker::new("0a1b")).unwrap();
    a.push_back(Service::new("")).unwrap();
    let text = a.to_string().unwrap();
    assert_eq!(text, "/service/echo/worker/0a1b/service/");
    let from_text = MultiAddr::try_from_str(&text, &reg).ok().unwrap();
    assert!(from_text.eq(&a));
    let from_bytes = MultiAddr::try_from_bytes(a.as_ref(), &reg).ok().unwrap();
    assert!(from_bytes.eq(&a));
    assert_eq!(from_bytes.as_ref(), a.as_ref());
}

#[test]
fn push_then_pop_gives_the_value_back() {
    let reg = registry();
    let mut a = MultiAddr::new(&reg);
    a.push_back(Service::new("first")).unwrap();
    let before = a.clone();
    a.push_back(Worker::new("second")).unwrap();
    assert!(!a.eq(&before));
    let popped = a.pop_back().unwrap();
    assert_eq!(popped.code(), Code::new(WORKER));
    assert_eq!(popped.as_ref(), &[6, b's', b'e', b'c', b'o', b'n', b'd']);
    assert_eq!(popped.data().0, &[6, b's', b'e', b'c', b'o', b'n', b'd']);
    let typed: Worker = popped.cast().unwrap();
    assert_eq!(typed.name, b"second");
    assert!(popped.cast::<Service>().is_none());
    assert!(a.eq(&before));
    assert_eq!(a.as_ref(), before.as_ref());
}

#[test]
fn single_component_front_and_back() {
    let reg = registry();
    let mut a = MultiAddr::new(&reg);
    a.push_back(Service::new("only")).unwrap();
    let mut b = a.clone();
    let back = a.pop_back().unwrap();
    assert!(a.is_empty());
    let front = b.pop_front().unwrap().to_owned();
    assert!(b.is_empty());
    assert_eq!(front.code(), back.code());
    assert_eq!(front.as_ref(), back.as_ref());
    assert_eq!(front.as_ref(), &[4, b'o', b'n', b'l', b'y']);
    assert!(a.eq(&b));
}

#[test]
fn unregistered_prefix_is_rejected() {
    let reg = registry();
    assert_eq!(
        MultiAddr::try_from_str("/unknown-protocol/value", &reg).err(),
        Some(Error::UnregisteredPrefix)
    );
    assert_eq!(
        MultiAddr::try_from_str("/service/a/unknown-protocol/value", &reg).err(),
        Some(Error::UnregisteredPrefix)
    );
}

#[test]
fn path_protocol_must_be_last() {
    let reg = registry();
    let a = MultiAddr::try_from_str("/service/a/unix/tmp/x.sock", &reg).ok().unwrap();
    let mut it = a.iter();
    let first = it.next().unwrap();
    assert_eq!(first.code(), Code::new(SERVICE));
    assert_eq!(first.as_ref(), &[1, b'a']);
    let second = it.next().unwrap();
    assert_eq!(second.code(), Code::new(UNIX));
    assert_eq!(&second.as_ref()[1..], b"tmp/x.sock");
    assert!(it.next().is_none());
    assert_eq!(a.to_string(), Ok(String::from("/service/a/unix/tmp/x.sock")));

    let b = MultiAddr::try_from_str("/unix/tmp/service/a", &reg).ok().unwrap();
    let mut it = b.iter();
    let only = it.next().unwrap();
    assert_eq!(only.code(), Code::new(UNIX));
    assert_eq!(&only.as_ref()[1..], b"tmp/service/a");
    assert!(it.next().is_none());
}

#[test]
fn text_must_follow_the_grammar() {
    let reg = registry();
    assert_eq!(MultiAddr::try_from_str("service/a", &reg).err(), Some(Error::InvalidText));
    assert_eq!(MultiAddr::try_from_str("//a", &reg).err(), Some(Error::UnregisteredPrefix));
    let empty = MultiAddr::try_from_str("", &reg).ok().unwrap();
    assert!(empty.is_empty());
    let bare = MultiAddr::try_from_str("/service", &reg).ok().unwrap();
    assert_eq!(bare.as_ref(), &service_bytes(b"")[..]);
}

#[test]
fn equality_ignores_the_offset() {
    let reg = registry();
    let mut a = MultiAddr::new(&reg);
    a.push_back(Service::new("gone")).unwrap();
    a.push_back(Worker::new("stays")).unwrap();
    a.push_back(Service::new("too")).unwrap();
    a.drop_first();
    let mut b = MultiAddr::new(&reg);
    b.push_back(Worker::new("stays")).unwrap();
    b.push_back(Service::new("too")).unwrap();
    assert!(a.eq(&b));
    assert!(b.eq(&a));
    assert_eq!(a.len(), b.len());
    let c = a.clone();
    assert!(c.eq(&a));
    assert_eq!(c.as_ref(), b.as_ref());
    assert_eq!(a.to_string(), Ok(String::from("/worker/stays/service/too")));
}

#[test]
fn operations_on_the_empty_address() {
    let reg = registry();
    let mut a = MultiAddr::new(&reg);
    a.drop_first();
    assert!(a.is_empty());
    a.drop_last();
    assert!(a.is_empty());
    assert!(a.pop_front().is_none());
    assert!(a.pop_back().is_none());
    assert!(a.is_empty());
    a.shrink_to_fit();
    assert!(a.is_empty());
    a.push_back(Service::new("x")).unwrap();
    assert_eq!(a.as_ref(), &service_bytes(b"x")[..]);
}

#[test]
fn drops_and_pops_walk_the_components() {
    let reg = registry();
    let mut a = MultiAddr::new(&reg);
    a.push_back(Service::new("one")).unwrap();
    a.push_back(Worker::new("two")).unwrap();
    a.push_back(Service::new("three")).unwrap();
    assert_eq!(a.first().unwrap().as_ref(), &[3, b'o', b'n', b'e']);
    assert_eq!(a.last().unwrap().as_ref(), &[5, b't', b'h', b'r', b'e', b'e']);
    a.drop_last();
    assert_eq!(a.to_string(), Ok(String::from("/service/one/worker/two")));
    let front = a.pop_front().unwrap();
    assert_eq!(front.code(), Code::new(SERVICE));
    assert_eq!(front.as_ref(), &[3, b'o', b'n', b'e']);
    assert_eq!(a.as_ref(), &worker_bytes(b"two")[..]);
    assert_eq!(a.last().unwrap().code(), Code::new(WORKER));
    a.drop_first();
    assert!(a.is_empty());
}

#[test]
fn long_addresses_move_to_the_heap_and_back() {
    let reg = registry();
    let mut a = MultiAddr::new(&reg);
    a.push_back(Service::new("a-rather-long-service-name")).unwrap();
    a.push_back(Worker::new("another-long-worker-name")).unwrap();
    assert_eq!(a.len(), 4 + 26 + 4 + 24);
    let last = a.pop_back().unwrap();
    assert_eq!(&last.as_ref()[1..], b"another-long-worker-name");
    assert_eq!(a.len(), 30);
    a.shrink_to_fit();
    assert_eq!(a.to_string(), Ok(String::from("/service/a-rather-long-service-name")));
}

#[test]
fn bytes_are_checked_when_parsed() {
    let reg = registry();
    let good = service_bytes(b"ok");
    let a = MultiAddr::try_from_bytes(&good, &reg).ok().unwrap();
    assert_eq!(a.as_ref(), &good[..]);
    assert_eq!(
        MultiAddr::try_from_bytes(&[0x07, 0x01, b'x'], &reg).err(),
        Some(Error::UnregisteredCode(Code::new(7)))
    );
    assert_eq!(
        MultiAddr::try_from_bytes(&[0xbe, 0xe8, 0x03, 0x05, b'x'], &reg).err(),
        Some(Error::InvalidProto(Code::new(SERVICE)))
    );
    assert_eq!(MultiAddr::try_from_bytes(&[0xbe, 0xe8], &reg).err(), Some(Error::InvalidVarint));
    let mut two = good.clone();
    two.extend_from_slice(&[0xbe]);
    assert_eq!(MultiAddr::try_from_bytes(&two, &reg).err(), Some(Error::InvalidVarint));
}

#[test]
fn text_that_is_not_utf8_is_a_formatting_failure() {
    let reg = registry();
    let mut a = MultiAddr::new(&reg);
    a.push_back(Service { name: vec![0xff, 0xfe] }).unwrap();
    assert_eq!(a.to_text(), Ok(vec![b'/', b's', b'e', b'r', b'v', b'i', b'c', b'e', b'/', 0xff, 0xfe]));
    assert_eq!(a.to_string(), Err(Error::Format));
}

#[test]
fn owned_values_outlive_the_address() {
    let reg = registry();
    let owned = {
        let mut a = MultiAddr::new(&reg);
        a.push_back(Worker::new("w")).unwrap();
        let v = a.first().unwrap().to_owned();
        v
    };
    assert_eq!(owned.code(), Code::new(WORKER));
    assert_eq!(owned.as_ref(), &[1, b'w']);
    let again = owned.to_owned();
    assert_eq!(again.as_ref(), owned.as_ref());
}

#[test]
fn bytes_iterator_reports_offsets_and_failures() {
    let reg = registry();
    let mut bytes = service_bytes(b"ab");
    bytes.extend_from_slice(&worker_bytes(b"c"));
    bytes.extend_from_slice(&[0x07, 0x00]);
    let mut it = BytesIter::with_registry(&bytes, &reg);
    let (o, c, v) = it.next().unwrap().unwrap();
    assert_eq!((o, c, v.0), (0, Code::new(SERVICE), &[2u8, b'a', b'b'][..]));
    assert_eq!(it.offset(), 6);
    let (o, c, v) = it.next().unwrap().unwrap();
    assert_eq!((o, c, v.0), (6, Code::new(WORKER), &[1u8, b'c'][..]));
    assert_eq!(it.next().unwrap().err(), Some(Error::UnregisteredCode(Code::new(7))));
    assert!(it.next().is_none());
}

#[test]
fn text_iterator_yields_prefix_and_value() {
    let reg = registry();
    let mut it = StrIter::with_registry("/service/a/worker/bc/nope/x", &reg);
    let (p, v) = it.next().unwrap().unwrap();
    assert_eq!((p, v.0), (&b"service"[..], &b"a"[..]));
    let (p, v) = it.next().unwrap().unwrap();
    assert_eq!((p, v.0), (&b"worker"[..], &b"bc"[..]));
    assert_eq!(it.next().unwrap().err(), Some(Error::UnregisteredPrefix));
    assert!(it.next().is_none());
}

#[test]
fn codec_splits_and_transcodes() {
    let codec = NameCodec::new(Code::new(SERVICE), "service", false);
    let (v, rest) = codec.split_str(b"service", b"abc/worker/x").unwrap();
    assert_eq!((v.0, rest), (&b"abc"[..], &b"/worker/x"[..]));
    let path = NameCodec::new(Code::new(UNIX), "unix", true);
    let (v, rest) = path.split_str(b"unix", b"a/b").unwrap();
    assert_eq!((v.0, rest), (&b"a/b"[..], &b""[..]));
    let (v, rest) = codec.split_bytes(Code::new(SERVICE), &[2, 1, 2, 3]).unwrap();
    assert_eq!((v.0, rest), (&[2u8, 1, 2][..], &[3u8][..]));
    assert_eq!(
        codec.split_bytes(Code::new(SERVICE), &[2, 1]).err(),
        Some(Error::InvalidProto(Code::new(SERVICE)))
    );
    assert!(codec.is_valid_bytes(Code::new(SERVICE), Checked(&[2, 1, 2])));
    assert!(!codec.is_valid_bytes(Code::new(SERVICE), Checked(&[2, 1, 2, 3])));
    let mut out: Vec<u8> = vec![9];
    codec.transcode_str(b"service", Checked(b"hi"), &mut out).unwrap();
    assert_eq!(out, vec![9, 0xbe, 0xe8, 0x03, 2, b'h', b'i']);
    let mut text: Vec<u8> = Vec::new();
    codec.transcode_bytes(Code::new(SERVICE), Checked(&[2, b'h', b'i']), &mut text).unwrap();
    assert_eq!(text, b"/service/hi");
    assert_eq!(
        codec.transcode_bytes(Code::new(SERVICE), Checked(&[3, b'h', b'i']), &mut text),
        Err(Error::InvalidProto(Code::new(SERVICE)))
    );
}

#[test]
fn protocols_read_and_write() {
    let s = Service::read_str(Checked(b"echo")).ok().unwrap();
    assert_eq!(s.name, b"echo");
    let mut text = Vec::new();
    s.write_str(&mut text).unwrap();
    assert_eq!(text, b"/service/echo");
    let mut bytes: Vec<u8> = Vec::new();
    s.write_bytes(&mut bytes);
    assert_eq!(bytes, service_bytes(b"echo"));
    assert_eq!(bytes.as_bytes(), &service_bytes(b"echo")[..]);
    bytes.extend_with(&[1]);
    assert_eq!(bytes.len(), 9);
    let w = Worker::read_bytes(Checked(&[2, b'w', b'1'])).ok().unwrap();
    assert_eq!(w.name, b"w1");
    assert_eq!(
        Worker::read_bytes(Checked(&[3, b'w', b'1'])).err(),
        Some(Error::InvalidProto(Code::new(WORKER)))
    );
    assert_eq!(Service::code(), Code::new(SERVICE));
    assert_eq!(Worker::prefix(), "worker");
}

#[test]
fn error_messages() {
    assert_eq!(Error::UnregisteredPrefix.message(), "unregistered prefix");
    assert_eq!(Error::Format.message(), "formatting failure");
    assert_eq!(Error::InvalidProto(Code::new(1)).message(), "invalid protocol value");
}

#[test]
fn names_may_hold_any_utf8() {
    let reg = registry();
    let a = MultiAddr::try_from_str("/service/caf\u{e9}/worker/\u{65e5}\u{672c}", &reg).ok().unwrap();
    let mut expected = service_bytes("caf\u{e9}".as_bytes());
    expected.extend_from_slice(&worker_bytes("\u{65e5}\u{672c}".as_bytes()));
    assert_eq!(a.as_ref(), &expected[..]);
    assert_eq!(a.to_string(), Ok(String::from("/service/caf\u{e9}/worker/\u{65e5}\u{672c}")));
    let name: Service = a.first().unwrap().to_owned().cast().unwrap_or(Service::new(""));
    assert_eq!(name.name, "caf\u{e9}".as_bytes());
}

#[test]
fn clone_drops_the_dead_prefix() {
    let reg = registry();
    let mut a = MultiAddr::new(&reg);
    a.push_back(Service::new("a-name-that-fills-the-inline-buffer")).unwrap();
    a.push_back(Worker::new("w")).unwrap();
    a.drop_first();
    let mut b = a.clone();
    assert!(a.eq(&b));
    assert_eq!(b.as_ref(), &worker_bytes(b"w")[..]);
    b.push_back(Service::new("s")).unwrap();
    assert!(!a.eq(&b));
    assert_eq!(a.as_ref(), &worker_bytes(b"w")[..]);
    let front = b.pop_front().unwrap();
    assert_eq!(front.as_ref(), &[1, b'w']);
    assert_eq!(b.as_ref(), &service_bytes(b"s")[..]);
}
