use lmc::client::{
    build_transceiver, check_message, choose_address, connect_packet, connect_result, lookup_result,
    publish_result, qos_1_stage, qos_2_stage, split_host, tcp_result, try_publish_result,
    unsubscribe_cmd, ConnectEnd, ConnectWait, LookupOutcome, SendStatus, SubWait, SubscribeStep,
    Subscribing, SubscriptionStatus, TcpOutcome,
};
use lmc::futures::{PublishFuture, PublishStage, SubscribeFuture};
use lmc::options::{IpVersion, IpVersionSet};
use lmc::shared::{ClientShared, NotifyResult, SubscriptionState};
use lmc::subs::Callback;
use lmc::time::Duration;
use lmc::transceiver::commands::{Command, UnsubKind};
use lmc::transport::{plain_write, tls_pre_write, tls_write, IoStatus, PreWrite, WantedFlags};
use lmc::{
    ConnectError, Options, PublishError, PublishEvent, QoS, ServerConnectError, SubscribeError,
    TimeoutKind, TryPublishError,
};

#[test]
fn default_options() {
    let opts = Options::new("client_id");
    assert_eq!(opts.client_id, "client_id");
    assert_eq!(opts.clean_session, false);
    assert_eq!(opts.keep_alive, 30);
    assert!(opts.last_will.is_none());
    assert_eq!(opts.username, None);
    assert_eq!(opts.password, None);
    assert_eq!(opts.no_delay, false);
    assert!(opts.enabled_ip_versions.supports(IpVersion::V4));
    assert!(opts.enabled_ip_versions.supports(IpVersion::V6));
    assert_eq!(opts.dns_timeout, Duration::from_secs(3));
    assert_eq!(opts.tcp_connect_timeout, Duration::from_secs(10));
    assert_eq!(opts.mqtt_connect_timeout, Duration::from_secs(3));
    assert_eq!(opts.packets_resend_delay, Duration::from_secs(1));
    assert_eq!(opts.default_port(), 1883);
}

#[test]
fn options_can_be_changed() {
    let mut opts = Options::new("client_id");
    opts.set_last_will("status", b"unexpected_disconnect", true, QoS::AtLeastOnce)
        .set_keep_alive(10)
        .set_clean_session()
        .set_no_delay()
        .set_username("user")
        .set_password(b"secret")
        .disable_ipv4()
        .set_all_timeouts_to(Duration::from_secs(7))
        .set_packets_resend_delay(Duration::from_secs(4))
        .set_default_port(1234);
    assert_eq!(opts.keep_alive, 10);
    assert!(opts.clean_session && opts.no_delay);
    let will = opts.last_will.as_ref().unwrap();
    assert_eq!((will.topic, will.retain, will.qos), ("status", true, QoS::AtLeastOnce));
    assert_eq!(will.message, b"unexpected_disconnect");
    assert_eq!(opts.username, Some("user"));
    assert_eq!(opts.password, Some(&b"secret"[..]));
    assert!(!opts.enabled_ip_versions.supports(IpVersion::V4));
    assert!(opts.enabled_ip_versions.supports(IpVersion::V6));
    assert_eq!(opts.dns_timeout, Duration::from_secs(7));
    assert_eq!(opts.mqtt_connect_timeout, Duration::from_secs(7));
    assert_eq!(opts.packets_resend_delay, Duration::from_secs(4));
    assert_eq!(opts.default_port(), 1234);

    opts.set_all_timeouts(Duration::from_secs(1), Duration::from_secs(2), Duration::from_secs(3))
        .disable_ipv6();
    assert_eq!(opts.dns_timeout, Duration::from_secs(1));
    assert_eq!(opts.tcp_connect_timeout, Duration::from_secs(2));
    assert_eq!(opts.mqtt_connect_timeout, Duration::from_secs(3));
    opts.set_dns_timeout(Duration::from_secs(4))
        .set_tcp_connect_timeout(Duration::from_secs(5))
        .set_mqtt_connect_timeout(Duration::from_nanos(6));
    assert_eq!(opts.dns_timeout.nanos, 4_000_000_000);
    assert_eq!(opts.tcp_connect_timeout.nanos, 5_000_000_000);
    assert_eq!(opts.mqtt_connect_timeout.nanos, 6);
    assert!(!opts.enabled_ip_versions.supports(IpVersion::V6));
}

#[test]
fn hosts_are_split() {
    let h = split_host("example.com", 1883);
    assert_eq!(h.host_and_port, "example.com:1883");
    assert_eq!(h.host_only, "example.com");
    let h = split_host("127.0.0.1:1234", 1883);
    assert_eq!(h.host_and_port, "127.0.0.1:1234");
    assert_eq!(h.host_only, "127.0.0.1");
    assert_eq!(split_host("é", 65535).host_and_port, "é:65535");
    assert_eq!(split_host("", 0).host_and_port, ":0");
    assert_eq!(split_host("a", 10).host_and_port, "a:10");
}

#[test]
fn addresses_are_chosen_by_version() {
    let all = IpVersionSet::all();
    let list = vec![IpVersion::V6, IpVersion::V4, IpVersion::V6];
    assert_eq!(choose_address(&list, all), Some(0));
    assert_eq!(choose_address(&list, all.without_v6()), Some(1));
    assert_eq!(choose_address(&list, all.without_v6().without_v4()), None);
    assert_eq!(choose_address(&vec![], all), None);
}

#[test]
fn lookup_results() {
    let all = IpVersionSet::all();
    let list = vec![IpVersion::V4, IpVersion::V6];
    assert_eq!(lookup_result(LookupOutcome::Found(list.clone()), all.without_v4()).unwrap(), 1);
    let none = lookup_result(LookupOutcome::Found(vec![IpVersion::V4]), all.without_v4());
    assert!(matches!(none, Err(ConnectError::HostnameNotFound)));
    let late = lookup_result(LookupOutcome::TimedOut, all);
    assert!(matches!(late, Err(ConnectError::Timeout(TimeoutKind::DnsLookup))));
    let err = std::io::Error::from(std::io::ErrorKind::NotFound);
    match lookup_result(LookupOutcome::Failed(err), all) {
        Err(ConnectError::LookupHostError(e)) => assert_eq!(e.kind(), std::io::ErrorKind::NotFound),
        _ => panic!(),
    }
}

#[test]
fn tcp_results() {
    assert_eq!(tcp_result(TcpOutcome::Connected(5)).unwrap(), 5);
    let late = tcp_result::<()>(TcpOutcome::TimedOut);
    assert!(matches!(late, Err(ConnectError::Timeout(TimeoutKind::TcpConnect))));
    let err = std::io::Error::from(std::io::ErrorKind::ConnectionRefused);
    match tcp_result::<()>(TcpOutcome::Failed(err)) {
        Err(ConnectError::IoError(e)) => assert_eq!(e.kind(), std::io::ErrorKind::ConnectionRefused),
        _ => panic!(),
    }
}

#[test]
fn connect_packet_follows_the_options() {
    let mut opts = Options::new("me");
    opts.set_keep_alive(9).set_last_will("w", b"m", false, QoS::ExactlyOnce).set_username("u");
    let pkt = connect_packet(&opts);
    assert_eq!(pkt.client_id, "me");
    assert_eq!(pkt.keep_alive, 9);
    assert_eq!(pkt.will.unwrap().topic, "w");
    assert_eq!(pkt.username, Some("u"));
    assert_eq!(pkt.password, None);
}

#[test]
fn oversized_options_cannot_be_sent() {
    let id = "x".repeat(70000);
    assert!(build_transceiver(&Options::new(&id), 0).is_none());
    assert!(build_transceiver(&Options::new("x"), 0).is_some());
}

#[test]
fn connect_results() {
    assert!(matches!(connect_result(ConnectWait::Answered(Ok(true))), ConnectEnd::Established(true)));
    assert!(matches!(connect_result(ConnectWait::Answered(Ok(false))), ConnectEnd::Established(false)));
    let refused = connect_result(ConnectWait::Answered(Err(ServerConnectError::NotAuthorized)));
    assert!(matches!(
        refused,
        ConnectEnd::Await(ConnectError::ServerError(ServerConnectError::NotAuthorized))
    ));
    assert!(matches!(
        connect_result(ConnectWait::Ended),
        ConnectEnd::Await(ConnectError::OneshotRecvError)
    ));
    assert!(matches!(
        connect_result(ConnectWait::TimedOut),
        ConnectEnd::Disconnect(ConnectError::Timeout(TimeoutKind::MqttConnect))
    ));
}

#[test]
fn publish_commands() {
    let mut shared = ClientShared::new();
    let cmd = shared.make_publish_cmd("t", b"x", QoS::AtMostOnce, true);
    assert_eq!(cmd.packet_id, 0);
    assert_eq!(&*cmd.packet, &[0x31, 4, 0, 1, b't', b'x']);
    let cmd = shared.make_publish_cmd("t", b"x", QoS::ExactlyOnce, false);
    assert_eq!(cmd.packet_id, 1);
    assert_eq!(cmd.qos, QoS::ExactlyOnce);
    assert_eq!(&*cmd.packet, &[0x34, 6, 0, 1, b't', 0, 1, b'x']);
    let cmd = shared.make_publish_cmd("t", b"x", QoS::AtLeastOnce, false);
    assert_eq!(cmd.packet_id, 2);

    assert!(check_message("t", b"x", QoS::AtLeastOnce, false));
    assert!(!check_message(&"t".repeat(65536), b"x", QoS::AtLeastOnce, false));
}

#[test]
fn ids_start_over() {
    let mut shared = ClientShared::new();
    shared.next_packet_id = u16::MAX;
    assert_eq!(shared.take_packet_id(), u16::MAX);
    assert_eq!(shared.take_packet_id(), 0);
    assert_eq!(shared.take_callback_id(), 0);
    assert_eq!(shared.take_callback_id(), 1);
    shared.next_callback_id = u32::MAX;
    assert_eq!(shared.take_callback_id(), u32::MAX);
    assert_eq!(shared.take_callback_id(), 0);
}

#[test]
fn publish_results() {
    assert_eq!(try_publish_result(SendStatus::Sent), Ok(()));
    assert_eq!(try_publish_result(SendStatus::Full), Err(TryPublishError::QueueFull));
    assert_eq!(
        try_publish_result(SendStatus::Closed),
        Err(TryPublishError::TransceiverTaskTerminated)
    );
    assert_eq!(publish_result(true, None), Ok(()));
    assert_eq!(publish_result(true, Some(false)), Ok(()));
    assert_eq!(publish_result(true, Some(true)), Err(PublishError::TransceiverTaskTerminated));
    assert_eq!(publish_result(false, None), Err(PublishError::TransceiverTaskTerminated));
}

#[test]
fn awaited_stages() {
    assert_eq!(qos_1_stage(true), Some(PublishStage::Ack));
    assert_eq!(qos_1_stage(false), None);
    assert_eq!(qos_2_stage(PublishEvent::NoEvent), None);
    assert_eq!(qos_2_stage(PublishEvent::Received), Some(PublishStage::Rec));
    assert_eq!(qos_2_stage(PublishEvent::Complete), Some(PublishStage::Comp));
}

#[test]
fn publish_future_waits_for_its_stage() {
    let mut shared = ClientShared::new();
    let map = shared.access_notifier_map(PublishStage::Rec);
    let mut fut = PublishFuture::new(5, map);
    assert_eq!(fut.poll(map, 100), None);
    assert_eq!(map.get(&5), Some(&NotifyResult::WithWaker(100)));
    assert_eq!(fut.poll(map, 101), None);
    assert_eq!(map.get(&5), Some(&NotifyResult::WithWaker(101)));
    map.remove(&5);
    assert_eq!(fut.poll(map, 102), Some(false));
    assert_eq!(fut.poll(map, 103), Some(false));
    assert!(map.is_empty());
    assert!(shared.notify_ack.is_empty());
    shared.access_notifier_map(PublishStage::Comp).insert(1, NotifyResult::Failed);
    assert_eq!(shared.notify_comp.len(), 1);
}

#[test]
fn publish_future_fails_with_the_transceiver() {
    let mut shared = ClientShared::new();
    let mut fut = PublishFuture::new(6, &mut shared.notify_ack);
    assert_eq!(fut.poll(&mut shared.notify_ack, 8), None);
    assert_eq!(shared.fail_all(), vec![8]);
    assert_eq!(fut.poll(&mut shared.notify_ack, 9), Some(true));
}

#[test]
fn publish_future_can_be_cancelled() {
    let mut shared = ClientShared::new();
    let fut = PublishFuture::new(6, &mut shared.notify_ack);
    fut.cancel(&mut shared.notify_ack);
    assert!(shared.notify_ack.is_empty());

    let mut done = PublishFuture::new(7, &mut shared.notify_ack);
    shared.notify_ack.remove(&7);
    assert_eq!(done.poll(&mut shared.notify_ack, 1), Some(false));
    shared.notify_ack.insert(7, NotifyResult::WithoutWaker);
    done.cancel(&mut shared.notify_ack);
    assert_eq!(shared.notify_ack.len(), 1);
}

#[test]
fn subscribe_future_waits_for_the_answer() {
    let mut shared = ClientShared::new();
    assert_eq!(shared.begin_subscribe("t"), SubWait::After);
    let mut a = SubscribeFuture::new("t");
    let mut b = SubscribeFuture::new("t");
    assert_eq!(a.poll(&mut shared, 1), None);
    assert_eq!(b.poll(&mut shared, 2), None);
    assert_eq!(a.poll(&mut shared, 3), None);
    match shared.subs.get("t") {
        Some(SubscriptionState::Pending(wakers)) => assert_eq!(wakers, &vec![Some(3), Some(2)]),
        _ => panic!(),
    }
    assert!(b.check_listed(&shared));
    b.cancel(&mut shared);
    match shared.subs.get("t") {
        Some(SubscriptionState::Pending(wakers)) => assert_eq!(wakers, &vec![Some(3), None]),
        _ => panic!(),
    }
    shared.subs.insert("t".to_string(), SubscriptionState::Existing(QoS::AtLeastOnce));
    assert_eq!(a.poll(&mut shared, 4), Some(Ok(QoS::AtLeastOnce)));
    shared.subs.clear();
    assert_eq!(a.poll(&mut shared, 5), Some(Ok(QoS::AtLeastOnce)));
    assert_eq!(
        SubscribeFuture::new("t").poll(&mut shared, 6),
        Some(Err(SubscribeError::RefusedByBroker))
    );
}

#[test]
fn subscribing_fails_with_the_transceiver() {
    let mut shared = ClientShared::new();
    let (mut s, _) = Subscribing::start(shared.begin_subscribe("t"));
    assert_eq!(s.command_sent(true), SubscribeStep::Wait);
    let mut fut = SubscribeFuture::new("t");
    assert_eq!(fut.poll(&mut shared, 1), None);
    assert!(!shared.task_ended);
    assert_eq!(shared.fail_all(), vec![1]);
    assert!(shared.task_ended);
    let answer = fut.poll(&mut shared, 2).unwrap();
    assert_eq!(
        s.answered(answer),
        SubscribeStep::Done(Err(SubscribeError::TransceiverTaskTerminated))
    );
    //Nor does anyone wait who comes too late
    shared.begin_subscribe("u");
    assert_eq!(
        SubscribeFuture::new("u").poll(&mut shared, 3),
        Some(Err(SubscribeError::TransceiverTaskTerminated))
    );
}

#[test]
fn subscribe_future_notices_another_list() {
    let mut shared = ClientShared::new();
    shared.begin_subscribe("t");
    let mut a = SubscribeFuture::new("t");
    a.poll(&mut shared, 1);
    shared.subs.insert("t".to_string(), SubscriptionState::Pending(vec![]));
    assert!(!a.check_listed(&shared));
}

#[test]
fn shutdown_wakes_everyone() {
    let mut shared = ClientShared::new();
    shared.notify_ack.insert(1, NotifyResult::WithWaker(10));
    shared.notify_ack.insert(2, NotifyResult::WithoutWaker);
    shared.notify_rec.insert(1, NotifyResult::WithWaker(11));
    shared.notify_comp.insert(3, NotifyResult::WithWaker(12));
    shared.notify_comp.insert(4, NotifyResult::Failed);
    shared.subs.insert("a".to_string(), SubscriptionState::Pending(vec![Some(13), None, Some(14)]));
    shared.subs.insert("b".to_string(), SubscriptionState::Existing(QoS::AtMostOnce));
    shared.subs.insert("c".to_string(), SubscriptionState::Pending(vec![Some(15)]));
    let mut wakers = shared.fail_all();
    wakers.sort();
    assert_eq!(wakers, vec![10, 11, 12, 13, 14, 15]);
    assert!(shared.subs.is_empty());
    assert_eq!(shared.notify_ack.get(&2), Some(&NotifyResult::Failed));
    assert_eq!(shared.notify_rec.get(&1), Some(&NotifyResult::Failed));
    assert_eq!(shared.notify_comp.len(), 2);
}

#[test]
fn subscription_status() {
    let mut shared = ClientShared::new();
    assert_eq!(shared.get_subscription_status("t"), SubscriptionStatus::Absent);
    assert_eq!(shared.begin_subscribe("t"), SubWait::After);
    assert_eq!(shared.get_subscription_status("t"), SubscriptionStatus::Pending);
    assert_eq!(shared.begin_subscribe("t"), SubWait::Before);
    shared.subs.insert("t".to_string(), SubscriptionState::Existing(QoS::AtMostOnce));
    assert_eq!(shared.begin_subscribe("t"), SubWait::DontWait(QoS::AtMostOnce));
    assert_eq!(shared.get_subscription_status("t"), SubscriptionStatus::Live);
}

#[test]
fn subscribing_step_by_step() {
    let (mut s, step) = Subscribing::start(SubWait::DontWait(QoS::AtLeastOnce));
    assert_eq!(step, SubscribeStep::Send);
    assert_eq!(s.command_sent(true), SubscribeStep::Done(Ok(QoS::AtLeastOnce)));

    let (mut s, step) = Subscribing::start(SubWait::Before);
    assert_eq!(step, SubscribeStep::Wait);
    assert_eq!(s.answered(Ok(QoS::AtMostOnce)), SubscribeStep::Send);
    assert_eq!(s.command_sent(true), SubscribeStep::Done(Ok(QoS::AtMostOnce)));

    let (mut s, step) = Subscribing::start(SubWait::After);
    assert_eq!(step, SubscribeStep::Send);
    assert_eq!(s.command_sent(true), SubscribeStep::Wait);
    assert_eq!(s.answered(Ok(QoS::ExactlyOnce)), SubscribeStep::Done(Ok(QoS::ExactlyOnce)));

    let (mut s, _) = Subscribing::start(SubWait::After);
    assert_eq!(
        s.command_sent(false),
        SubscribeStep::Done(Err(SubscribeError::TransceiverTaskTerminated))
    );
    let (mut s, _) = Subscribing::start(SubWait::Before);
    assert_eq!(
        s.answered(Err(SubscribeError::RefusedByBroker)),
        SubscribeStep::Done(Err(SubscribeError::RefusedByBroker))
    );
}

#[test]
fn removing_and_unsubscribing() {
    let cmd = Callback::new("t".to_string(), 4).remove_callback();
    assert_eq!(cmd.topic, "t");
    assert_eq!(cmd.kind, UnsubKind::FastCallback(4));
    assert!(matches!(Command::from(cmd), Command::Unsub(_)));
    match unsubscribe_cmd("t".to_string()) {
        Command::Unsub(cmd) => {
            assert_eq!(cmd.topic, "t");
            assert_eq!(cmd.kind, UnsubKind::Immediate);
        }
        _ => panic!(),
    }
}

#[test]
fn transports() {
    assert_eq!(WantedFlags::plain(true, false), WantedFlags { read: true, write: false });
    assert_eq!(plain_write(IoStatus::WouldBlock, true), IoStatus::Done(0));
    assert_eq!(plain_write(IoStatus::WouldBlock, false), IoStatus::WouldBlock);
    assert_eq!(plain_write(IoStatus::Done(3), true), IoStatus::Done(3));
    assert_eq!(plain_write(IoStatus::Failed, true), IoStatus::Failed);
    assert_eq!(tls_write(0, false), IoStatus::WouldBlock);
    assert_eq!(tls_write(0, true), IoStatus::Done(0));
    assert_eq!(tls_write(5, false), IoStatus::Done(5));
    assert_eq!(tls_pre_write(IoStatus::Done(0)), PreWrite::UnexpectedEof);
    assert_eq!(tls_pre_write(IoStatus::Done(1)), PreWrite::Ready);
    assert_eq!(tls_pre_write(IoStatus::WouldBlock), PreWrite::Ready);
    assert_eq!(tls_pre_write(IoStatus::Failed), PreWrite::Failed);
}

#[test]
fn durations() {
    assert_eq!(Duration::from_secs(2).nanos, 2_000_000_000);
    assert_eq!(Duration::from_secs(2).max(Duration::from_secs(3)), Duration::from_secs(3));
    assert_eq!(Duration::from_secs(4).max(Duration::from_secs(3)), Duration::from_secs(4));
}

#[test]
fn qos_codes() {
    assert_eq!(QoS::ExactlyOnce.code(), 2);
    assert_eq!(QoS::from_code(1), Some(QoS::AtLeastOnce));
    assert_eq!(QoS::from_code(3), None);
    assert!(QoS::AtMostOnce < QoS::AtLeastOnce);
}
