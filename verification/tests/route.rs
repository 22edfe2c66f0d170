//! Addresses and their text form.

use emergence::{names, Hop, PacketRoute, RouteError};

#[test]
fn parses_and_prints_round_trip() -> Result<(), RouteError> {
    let route: PacketRoute = "pc@wifi/app@ipc".parse()?;
    assert_eq!(route.len(), 2);
    assert_eq!(route.to_string(), "pc@wifi/app@ipc");
    Ok(())
}

#[test]
fn hop_without_link_means_any_link() -> Result<(), RouteError> {
    let route: PacketRoute = "pc".parse()?;
    assert_eq!(route.link(), names::ANY_LINK);
    Ok(())
}

#[test]
fn rejects_bad_text() {
    assert_eq!(
        "@wifi".parse::<PacketRoute>(),
        Err(RouteError::BadHop("@wifi".into()))
    );
    assert_eq!(
        "pc@".parse::<PacketRoute>(),
        Err(RouteError::BadHop("pc@".into()))
    );
    let deep = ["a@b"; PacketRoute::MAX_DEPTH + 1].join("/");
    assert_eq!(deep.parse::<PacketRoute>(), Err(RouteError::TooDeep));
}

#[test]
fn pop_stops_at_the_last_hop() -> Result<(), RouteError> {
    let route: PacketRoute = "a@x/b@y".parse()?;
    let rest = route.popped();
    assert_eq!(rest.as_ref().map(PacketRoute::node), Some("b"));
    assert_eq!(rest.and_then(|r| r.popped()), None);
    Ok(())
}

#[test]
fn prepend_respects_max_depth() -> Result<(), RouteError> {
    let route = PacketRoute::new("a", "x").prepended(Hop::new("gw", "wifi"))?;
    assert_eq!(route.to_string(), "gw@wifi/a@x");
    let full = PacketRoute::from_hops(vec![Hop::new("n", "l"); PacketRoute::MAX_DEPTH])?;
    assert_eq!(full.prepended(Hop::new("m", "l")), Err(RouteError::TooDeep));
    Ok(())
}
