use zukunft::{bind, lift, then, ChannelClosed, Future};

struct MockFuture;

impl Future for MockFuture {
    type Output = u8;
    fn resolve(self) -> Result<u8, ChannelClosed> {
        Ok(100)
    }
}

struct FailingFuture;

impl Future for FailingFuture {
    type Output = u8;
    fn resolve(self) -> Result<u8, ChannelClosed> {
        Err(ChannelClosed)
    }
}

#[test]
fn test_lift_value_into_future() {
    let val = 5u8;
    let future = lift(val);
    assert_eq!(future.resolve(), Ok(val));
}

#[test]
fn test_map_to_same_type() {
    let future = lift(5u8);
    let double_future = future.map(|val| 2 * val);
    assert_eq!(double_future.resolve(), Ok(10));
}

#[test]
fn test_map_to_different_type() {
    let future = lift(5u8);
    let future_vec = future.map(|len| {
        let mut vec = Vec::new();
        for _ in 0..len {
            vec.push(0u8);
        }
        vec
    });
    assert_eq!(future_vec.resolve(), Ok(vec![0, 0, 0, 0, 0]));
}

#[test]
fn test_chain_map() {
    let future = lift(5u8);
    let res = future.map(|val| 2 * val).map(|val| val + 1);
    assert_eq!(res.resolve(), Ok(11));
}

#[test]
fn test_bind_same_inner_type() {
    let future = lift(5u8);
    let res = future.bind(|val| lift(val + 50));
    assert_eq!(res.resolve(), Ok(55));
}

#[test]
fn test_bind_different_inner_type() {
    let future = lift(5u8);
    let res = future.bind(|val| lift(vec![0; val as usize]));
    assert_eq!(res.resolve(), Ok(vec![0, 0, 0, 0, 0]));
}

#[test]
fn test_bind_different_future_impl() {
    let future = MockFuture;
    let res = future.bind(|val| lift(val * 2));
    assert_eq!(res.resolve(), Ok(200));
}

#[test]
fn lift_keeps_any_value() {
    assert_eq!(lift(String::from("abc")).resolve(), Ok(String::from("abc")));
    assert_eq!(lift(0u64).resolve(), Ok(0));
    assert_eq!(lift(u64::MAX).resolve(), Ok(u64::MAX));
}

#[test]
fn map_applies_in_order() {
    // (5 + 1) * 3, not 5 * 3 + 1
    let res = lift(5u32).map(|v| v + 1).map(|v| v * 3);
    assert_eq!(res.resolve(), Ok(18));
}

#[test]
fn then_is_map() {
    let a = lift(7i32).then(|v| v - 10).resolve();
    let b = lift(7i32).map(|v| v - 10).resolve();
    assert_eq!(a, Ok(-3));
    assert_eq!(a, b);
}

#[test]
fn free_functions_build_the_same_futures() {
    assert_eq!(then(lift(4u8), |v| v * 4).resolve(), Ok(16));
    assert_eq!(bind(lift(4u8), |v| lift(v + 1)).resolve(), Ok(5));
}

#[test]
fn bind_of_lift_equals_map() {
    let f = |v: u16| v * 7 + 1;
    let by_bind = lift(6u16).bind(move |v| lift(f(v))).resolve();
    let by_map = lift(6u16).map(f).resolve();
    assert_eq!(by_bind, Ok(43));
    assert_eq!(by_bind, by_map);
}

#[test]
fn bind_flattens_to_the_inner_output() {
    let res = lift(3u8).bind(|n| lift(n).map(move |m| format!("{}-{}", n, m)));
    let out: Result<String, ChannelClosed> = res.resolve();
    assert_eq!(out, Ok(String::from("3-3")));
}

#[test]
fn bind_is_associative() {
    let left = lift(2u32)
        .bind(|a| lift(a + 3))
        .bind(|b| lift(b * 10))
        .resolve();
    let right = lift(2u32)
        .bind(|a| lift(a + 3).bind(|b| lift(b * 10)))
        .resolve();
    assert_eq!(left, Ok(50));
    assert_eq!(left, right);
}

#[test]
fn map_runs_nothing_before_resolve() {
    let counter = std::cell::Cell::new(0u32);
    let fut = lift(1u8).map(|v| {
        counter.set(counter.get() + 1);
        v
    });
    assert_eq!(counter.get(), 0);
    assert_eq!(fut.resolve(), Ok(1));
    assert_eq!(counter.get(), 1);
}

#[test]
fn bind_runs_nothing_before_resolve() {
    let counter = std::cell::Cell::new(0u32);
    let fut = lift(1u8).bind(|v| {
        counter.set(counter.get() + 1);
        lift(v + 1)
    });
    assert_eq!(counter.get(), 0);
    assert_eq!(fut.resolve(), Ok(2));
    assert_eq!(counter.get(), 1);
}

#[test]
fn map_passes_a_failure_through_without_calling() {
    let counter = std::cell::Cell::new(0u32);
    let fut = FailingFuture.map(|v| {
        counter.set(counter.get() + 1);
        v + 1
    });
    assert_eq!(fut.resolve(), Err(ChannelClosed));
    assert_eq!(counter.get(), 0);
}

#[test]
fn bind_passes_a_failure_through_without_calling() {
    let counter = std::cell::Cell::new(0u32);
    let fut = FailingFuture.bind(|v| {
        counter.set(counter.get() + 1);
        lift(v + 1)
    });
    assert_eq!(fut.resolve(), Err(ChannelClosed));
    assert_eq!(counter.get(), 0);
}

#[test]
fn bind_passes_the_next_futures_failure_through() {
    let fut = lift(1u8).bind(|_| FailingFuture).map(|v| v * 2);
    assert_eq!(fut.resolve(), Err(ChannelClosed));
}
