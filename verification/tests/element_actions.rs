use tuna::element::{Action, Value};

#[test]
fn ignore_neither_redraws_nor_stops() {
    let a: Action<()> = Action::ignore();
    assert!(!a.should_redraw());
    assert!(!a.should_stop());
}

#[test]
fn and_return_stops_with_the_value() {
    let mut a: Action<i32> = Action::redraw().and_return(7);
    assert!(a.should_redraw());
    assert!(a.should_stop());
    assert!(a.has_value());
    assert_eq!(a.take_value(), Some(7));
    assert!(a.should_stop());
    assert!(!a.has_value());
    assert_eq!(a.take_value(), None);
}

#[test]
fn merge_keeps_a_returned_value_over_a_stop() {
    let mut a: Action<i32> = Action::ignore().and_return(3);
    a.merge(Action::redraw().and_stop());
    assert!(a.should_redraw());
    assert_eq!(a.take_value(), Some(3));

    let mut b: Action<i32> = Action::ignore().and_stop();
    b.merge(Action::ignore().and_return(5));
    assert_eq!(b.take_value(), Some(5));
}

#[test]
fn but_no_value_keeps_the_stop() {
    let a: Action<i32> = Action::redraw_if(false).and_return(1);
    let b: Action<()> = a.but_no_value();
    assert!(b.should_stop());
    assert!(!b.should_redraw());
    let c: Action<()> = Action::<i32>::redraw().but_no_value();
    assert!(!c.should_stop());
    assert!(c.should_redraw());
}

#[test]
fn value_merge_follows_priority() {
    let mut v: Value<i32> = Value::Continue;
    v.merge(Value::Stop);
    assert_eq!(v, Value::Stop);
    v.merge(Value::Continue);
    assert_eq!(v, Value::Stop);
    v.merge(Value::Return(2));
    assert_eq!(v, Value::Return(2));
    v.merge(Value::Stop);
    assert_eq!(v, Value::Return(2));
}
