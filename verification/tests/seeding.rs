use cdn_seeder::portmap::{upnp_forward, Protocol, UpnpReply, UpnpStep};
use cdn_seeder::seed::{
    seed_operations, SeedAction, SeedAllPiecesOperation, SeedEvent, SeedOperation,
};

/// Runs the operation once over a torrent with `total` pieces, and lists what it marks.
fn pass(operation: &mut SeedAllPiecesOperation, total: usize) -> Vec<usize> {
    let mut marked = Vec::new();
    let mut event = SeedEvent::Tick;
    loop {
        event = match operation.execute(event) {
            SeedAction::Continue => return marked,
            SeedAction::CountPieces => SeedEvent::Counted { total },
            SeedAction::CompletePiece { piece, total } => {
                marked.push(piece);
                SeedEvent::Completed { piece, total }
            }
        };
    }
}

#[test]
fn operation_has_a_name() {
    assert_eq!(SeedAllPiecesOperation::new().name(), "SeedAllPieces");
}

#[test]
fn first_pass_marks_every_piece() {
    let mut operation = SeedAllPiecesOperation::new();
    assert_eq!(pass(&mut operation, 5), [0, 1, 2, 3, 4]);
}

#[test]
fn pieces_are_marked_once() {
    let mut operation = SeedAllPiecesOperation::new();
    assert_eq!(pass(&mut operation, 0), Vec::<usize>::new());
    assert_eq!(pass(&mut operation, 0), Vec::<usize>::new());
    assert_eq!(pass(&mut operation, 3), [0, 1, 2]);
    assert_eq!(pass(&mut operation, 3), Vec::<usize>::new());
    assert_eq!(pass(&mut operation, 7), Vec::<usize>::new());
    assert_eq!(operation.execute(SeedEvent::Tick), SeedAction::Continue);
}

#[test]
fn interrupted_pass_starts_over() {
    let mut operation = SeedAllPiecesOperation::new();
    assert_eq!(operation.execute(SeedEvent::Tick), SeedAction::CountPieces);
    assert_eq!(
        operation.execute(SeedEvent::Completed { piece: 0, total: 2 }),
        SeedAction::CompletePiece { piece: 1, total: 2 }
    );
    assert_eq!(pass(&mut operation, 2), [0, 1]);
}

#[test]
fn operations_in_order() {
    assert_eq!(
        seed_operations(),
        vec![
            SeedOperation::Stats,
            SeedOperation::Trackers,
            SeedOperation::DhtNodes,
            SeedOperation::DhtPeers,
            SeedOperation::LsdPeers,
            SeedOperation::TrackerPeers,
            SeedOperation::ConnectPeers { webseeds_enabled: true },
            SeedOperation::Metadata { retrieve_timeout_secs: None },
            SeedOperation::CreatePiecesAndFiles,
            SeedOperation::SeedAllPieces,
        ]
    );
}

#[test]
fn port_is_forwarded() {
    for reply in [UpnpReply::ExternalIpKnown, UpnpReply::ExternalIpUnknown] {
        let (mut forward, step) = upnp_forward(6881);
        assert!(matches!(step, UpnpStep::SearchGateway { timeout_secs: 3 }));
        assert!(matches!(forward.step(UpnpReply::GatewayFound), UpnpStep::GetExternalIp));
        match forward.step(reply) {
            UpnpStep::AddPort(mapping) => {
                assert_eq!(mapping.protocol, Protocol::Tcp);
                assert_eq!(mapping.external_port, 6881);
                assert_eq!(mapping.local_ip, [0, 0, 0, 0]);
                assert_eq!(mapping.local_port, 6881);
                assert_eq!(mapping.lease_secs, 3600);
                assert_eq!(mapping.description, "cdn-seeder");
            }
            other => panic!("{:?}", other),
        }
        assert!(matches!(forward.step(UpnpReply::PortAdded), UpnpStep::Finish(Some(6881))));
    }
}

#[test]
fn port_is_not_forwarded() {
    let (mut forward, _) = upnp_forward(6881);
    assert!(matches!(forward.step(UpnpReply::NoGateway), UpnpStep::Finish(None)));
    let (mut forward, _) = upnp_forward(6881);
    forward.step(UpnpReply::GatewayFound);
    forward.step(UpnpReply::ExternalIpKnown);
    assert!(matches!(forward.step(UpnpReply::PortRefused), UpnpStep::Finish(None)));
}
