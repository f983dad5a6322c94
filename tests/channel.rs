use zukunft::mpsc::received;
use zukunft::{lift, ChannelClosed, ChannelFuture, Future};

#[test]
fn test_future_awaits_resolution() {
    let (future, resolver) = ChannelFuture::new();
    assert!(resolver.send(10u8).is_ok());
    assert_eq!(future.resolve(), Ok(10u8));
}

#[test]
fn test_map() {
    let (future, resolver) = ChannelFuture::new();
    let future = future.map(|val| 2 * val);
    assert!(resolver.send(10u8).is_ok());
    assert_eq!(future.resolve(), Ok(20u8));
}

#[test]
fn test_bind_sequences_two_channel_futures() {
    let (first_future, first_resolver) = ChannelFuture::new();
    let (second_future, second_resolver) = ChannelFuture::new();
    let future = first_future.bind(|val1| second_future.map(move |val2| val1 * val2));
    // The futures are resolved out of the expected order...
    assert!(second_resolver.send(10u8).is_ok());
    assert!(first_resolver.send(6u8).is_ok());
    assert_eq!(future.resolve(), Ok(60));
}

#[test]
fn test_composes_with_wrapped_bind() {
    let (future, resolver) = ChannelFuture::new();
    let future = future.bind(|val| lift(2 * val));
    assert!(resolver.send(10u8).is_ok());
    assert_eq!(future.resolve(), Ok(20u8));
}

#[test]
fn two_channel_futures_in_declaration_order() {
    let (first_future, first_resolver) = ChannelFuture::new();
    let (second_future, second_resolver) = ChannelFuture::new();
    let future = first_future.bind(|val1| second_future.map(move |val2| val1 * val2));
    assert!(first_resolver.send(6u8).is_ok());
    assert!(second_resolver.send(10u8).is_ok());
    assert_eq!(future.resolve(), Ok(60));
}

#[test]
fn dropped_resolver_fails_the_future() {
    let (future, resolver) = ChannelFuture::<u8>::new();
    drop(resolver);
    assert_eq!(future.resolve(), Err(ChannelClosed));
}

#[test]
fn failure_passes_through_map() {
    let (future, resolver) = ChannelFuture::<u8>::new();
    let future = future.map(|v| v + 1);
    drop(resolver);
    assert_eq!(future.resolve(), Err(ChannelClosed));
}

#[test]
fn failure_of_the_second_channel_passes_through_bind() {
    let (first_future, first_resolver) = ChannelFuture::new();
    let (second_future, second_resolver) = ChannelFuture::<u8>::new();
    let future = first_future.bind(|val1| second_future.map(move |val2| val1 * val2));
    assert!(first_resolver.send(6u8).is_ok());
    drop(second_resolver);
    assert_eq!(future.resolve(), Err(ChannelClosed));
}

#[test]
fn only_the_first_send_is_observed() {
    let (future, resolver) = ChannelFuture::new();
    assert!(resolver.send(1u32).is_ok());
    assert!(resolver.send(2u32).is_ok());
    assert_eq!(future.resolve(), Ok(1));
}

#[test]
fn send_after_the_future_is_gone_fails() {
    let (future, resolver) = ChannelFuture::<u8>::new();
    drop(future);
    assert!(resolver.send(3u8).is_err());
}

#[test]
fn from_receiver_reads_the_existing_channel() {
    let (tx, rx) = std::sync::mpsc::channel();
    let future = ChannelFuture::from_receiver(rx);
    tx.send(42i64).unwrap();
    assert_eq!(future.resolve(), Ok(42));
}

#[test]
fn value_sent_before_a_drop_still_arrives() {
    let (future, resolver) = ChannelFuture::new();
    resolver.send(9u8).unwrap();
    drop(resolver);
    assert_eq!(future.map(|v| v * 2).resolve(), Ok(18));
}

#[test]
fn received_maps_the_receive_outcome() {
    assert_eq!(received(Ok::<u8, std::sync::mpsc::RecvError>(4)), Ok(4));
    assert_eq!(received(Err::<u8, std::sync::mpsc::RecvError>(std::sync::mpsc::RecvError)), Err(ChannelClosed));
}
