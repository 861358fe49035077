use unreal_api::events::Channel;
use unreal_api::value::Value;

fn visible_values(c: &Channel) -> Vec<Value> {
    let mut out = Vec::new();
    let n = c.visible_len();
    let mut i = 0;
    while i < n {
        out.push(c.visible_at(i).payload.clone());
        i += 1;
    }
    out
}

#[test]
fn pushed_event_is_visible_same_tick() {
    let mut c = Channel::new();
    c.push(Value::Num(7));
    assert_eq!(visible_values(&c), vec![Value::Num(7)]);
}

#[test]
fn pushed_event_survives_one_flip() {
    let mut c = Channel::new();
    c.push(Value::Num(7));
    c.update();
    assert_eq!(visible_values(&c), vec![Value::Num(7)]);
}

#[test]
fn pushed_event_is_dropped_after_two_flips() {
    let mut c = Channel::new();
    c.push(Value::Num(7));
    c.update();
    c.update();
    assert_eq!(visible_values(&c), Vec::<Value>::new());
}

#[test]
fn event_lifetime_with_interleaved_pushes() {
    let mut c = Channel::new();
    c.push(Value::Num(1));
    c.push(Value::Num(2));
    c.update();
    c.push(Value::Num(3));
    assert_eq!(
        visible_values(&c),
        vec![Value::Num(1), Value::Num(2), Value::Num(3)]
    );
    c.update();
    assert_eq!(visible_values(&c), vec![Value::Num(3)]);
    c.update();
    assert_eq!(visible_values(&c), Vec::<Value>::new());
}

#[test]
fn readers_see_oldest_first_with_increasing_ids() {
    let mut c = Channel::new();
    c.push(Value::Num(10));
    c.push(Value::Num(20));
    c.update();
    c.push(Value::Num(30));
    assert_eq!(c.visible_at(0).id, 0);
    assert_eq!(c.visible_at(1).id, 1);
    assert_eq!(c.visible_at(2).id, 2);
    assert_eq!(c.visible_at(0).payload, Value::Num(10));
    assert_eq!(c.visible_at(2).payload, Value::Num(30));
}
