use gl_renderer::context_tracker::{
    Action, ContextCurrentWrapper, ContextTracker, ContextWrapper, Outcome,
};

// Contexts stand in as plain values: `char` for a possibly current one and
// `u8` for one that is not current; errors are strings.
type Tracker = ContextTracker<char, u8, &'static str>;

fn not_current(n: u8) -> ContextCurrentWrapper<char, u8> {
    ContextCurrentWrapper::NotCurrent(n)
}

fn possibly_current(p: char) -> ContextCurrentWrapper<char, u8> {
    ContextCurrentWrapper::PossiblyCurrent(p)
}

#[test]
fn insert_hands_out_fresh_increasing_ids() {
    let mut t = Tracker::new();
    assert_eq!(t.next_id(), 0);
    let (a, act_a) = t.insert(not_current(10));
    let (b, act_b) = t.insert(not_current(11));
    let (c, act_c) = t.insert(not_current(12));
    assert_eq!((a, b, c), (0, 1, 2));
    assert_eq!(act_a, Action::Done(Outcome::Inserted(0)));
    assert_eq!(act_b, Action::Done(Outcome::Inserted(1)));
    assert_eq!(act_c, Action::Done(Outcome::Inserted(2)));
    assert_eq!(t.next_id(), 3);
    assert_eq!(t.current(), None);
    assert!(t.is_idle());
}

#[test]
fn ids_are_not_reused_after_remove() {
    let mut t = Tracker::new();
    let (a, _) = t.insert(not_current(1));
    assert_eq!(t.remove(a), not_current(1));
    let (b, _) = t.insert(not_current(2));
    assert_eq!(b, 1);
    assert_eq!(t.remove(b), not_current(2));
}

#[test]
fn removed_ids_never_come_back() {
    let mut t = Tracker::new();
    let (a, _) = t.insert(possibly_current('a'));
    let (b, _) = t.insert(not_current(2));
    t.remove(a);
    assert!(!t.contains(a));
    t.get_current(b);
    t.made_current(Ok('b'));
    let (c, _) = t.insert(not_current(3));
    t.remove(b);
    let (d, _) = t.insert(not_current(4));
    assert_eq!((a, b, c, d), (0, 1, 2, 3));
    assert!(!t.contains(a));
    assert!(!t.contains(b));
    assert!(t.contains(c) && t.contains(d));
}

#[test]
fn remove_gives_back_what_was_inserted() {
    let mut t = Tracker::new();
    t.insert(not_current(1));
    let (b, _) = t.insert(not_current(2));
    t.insert(not_current(3));
    assert_eq!(t.remove(b), not_current(2));
    assert_eq!(t.remove(0), not_current(1));
    assert_eq!(t.remove(2), not_current(3));
}

#[test]
fn inserting_possibly_current_without_current_makes_it_current() {
    let mut t = Tracker::new();
    t.insert(not_current(1));
    let (b, act) = t.insert(possibly_current('b'));
    assert_eq!(act, Action::Done(Outcome::Inserted(b)));
    assert_eq!(t.current(), Some(b));
    assert_eq!(*t.current_context(b), 'b');
}

#[test]
fn inserting_possibly_current_demotes_the_old_current() {
    let mut t = Tracker::new();
    let (a, _) = t.insert(possibly_current('a'));
    assert_eq!(t.current(), Some(a));
    let (b, act) = t.insert(possibly_current('b'));
    assert_eq!(act, Action::TreatAsNotCurrent('a'));
    assert!(!t.is_idle());
    assert_eq!(t.current(), Some(b));
    let done = t.treated_as_not_current(7);
    assert_eq!(done, Action::Done(Outcome::Inserted(b)));
    assert!(t.is_idle());
    assert_eq!(*t.current_context(b), 'b');
    assert_eq!(t.remove(a), not_current(7));
}

#[test]
fn inserting_not_current_keeps_the_current() {
    let mut t = Tracker::new();
    let (a, _) = t.insert(possibly_current('a'));
    let (_, act) = t.insert(not_current(3));
    assert_eq!(act, Action::Done(Outcome::Inserted(1)));
    assert_eq!(t.current(), Some(a));
}

#[test]
fn get_current_of_the_current_is_done_at_once() {
    let mut t = Tracker::new();
    let (a, _) = t.insert(possibly_current('a'));
    assert_eq!(t.get_current(a), Action::Done(Outcome::Current(a)));
    assert!(t.is_idle());
    *t.current_context(a) = 'z';
    assert_eq!(t.remove(a), possibly_current('z'));
    assert_eq!(t.current(), None);
}

#[test]
fn switch_without_previous_current() {
    let mut t = Tracker::new();
    let (a, _) = t.insert(not_current(5));
    assert_eq!(t.get_current(a), Action::MakeCurrent(5));
    assert_eq!(t.current(), None);
    assert_eq!(t.made_current(Ok('a')), Action::Done(Outcome::Current(a)));
    assert_eq!(t.current(), Some(a));
    assert_eq!(*t.current_context(a), 'a');
}

#[test]
fn switch_demotes_the_previous_current() {
    let mut t = Tracker::new();
    let (a, _) = t.insert(possibly_current('a'));
    let (b, _) = t.insert(not_current(6));
    assert_eq!(t.get_current(b), Action::MakeCurrent(6));
    assert_eq!(t.made_current(Ok('b')), Action::TreatAsNotCurrent('a'));
    assert_eq!(t.current(), Some(b));
    assert_eq!(t.treated_as_not_current(9), Action::Done(Outcome::Current(b)));
    assert!(t.is_idle());
    assert_eq!(t.remove(a), not_current(9));
    assert_eq!(t.remove(b), possibly_current('b'));
}

#[test]
fn failed_switch_without_previous_leaves_nothing_current() {
    let mut t = Tracker::new();
    let (a, _) = t.insert(not_current(5));
    t.get_current(a);
    assert_eq!(t.made_current(Err((15, "lost"))), Action::Done(Outcome::Failed("lost")));
    assert_eq!(t.current(), None);
    assert!(t.is_idle());
    assert_eq!(t.remove(a), not_current(15));
}

#[test]
fn failed_switch_rolls_back_the_previous_current() {
    let mut t = Tracker::new();
    let (a, _) = t.insert(possibly_current('a'));
    let (b, _) = t.insert(not_current(6));
    assert_eq!(t.get_current(b), Action::MakeCurrent(6));
    assert_eq!(t.made_current(Err((16, "first"))), Action::MakeNotCurrent('a'));
    assert_eq!(t.current(), None);
    assert_eq!(t.made_not_current(Ok(20)), Action::Done(Outcome::Failed("first")));
    assert!(t.is_idle());
    assert_eq!(t.current(), None);
    assert_eq!(t.remove(a), not_current(20));
    assert_eq!(t.remove(b), not_current(16));
}

#[test]
fn failed_roll_back_is_unrecoverable() {
    let mut t = Tracker::new();
    let (_, _) = t.insert(possibly_current('a'));
    let (b, _) = t.insert(not_current(6));
    t.get_current(b);
    t.made_current(Err((16, "first")));
    assert_eq!(
        t.made_not_current(Err(('a', "second"))),
        Action::Done(Outcome::Unrecoverable("first", "second"))
    );
    assert!(!t.is_idle());
    assert_eq!(t.current(), None);
}

#[test]
fn default_is_empty() {
    let t: Tracker = Default::default();
    assert_eq!(t.next_id(), 0);
    assert_eq!(t.current(), None);
    assert!(t.is_idle());
}

#[test]
fn headless_and_windowed_reach_the_context() {
    let mut h: ContextWrapper<u8, char> = ContextWrapper::Headless(1);
    *h.headless() += 1;
    assert_eq!(h, ContextWrapper::Headless(2));
    let mut w: ContextWrapper<u8, char> = ContextWrapper::Windowed('w');
    *w.windowed() = 'v';
    assert_eq!(w, ContextWrapper::Windowed('v'));
}

#[test]
fn map_keeps_the_variant() {
    let h: ContextWrapper<u8, char> = ContextWrapper::Headless(3);
    let r: Result<ContextWrapper<u16, String>, _> =
        h.map(|x| Ok::<u16, (u8, &str)>(x as u16 * 10), |c| Ok(c.to_string()));
    assert_eq!(r, Ok(ContextWrapper::Headless(30)));

    let w: ContextWrapper<u8, char> = ContextWrapper::Windowed('q');
    let r: Result<ContextWrapper<u16, String>, _> =
        w.map(|x| Ok::<u16, (u8, &str)>(x as u16), |c| Err((c, "nope")));
    assert_eq!(r, Err((ContextWrapper::Windowed('q'), "nope")));
}

#[test]
fn map_possibly_and_map_not() {
    let p = possibly_current('p');
    assert_eq!(p.map_possibly(|_| Ok::<u8, (char, &str)>(4)), Ok(not_current(4)));
    let p = possibly_current('p');
    assert_eq!(p.map_possibly(|c| Err::<u8, (char, &str)>((c, "e"))), Err((possibly_current('p'), "e")));
    let n = not_current(4);
    assert_eq!(n.map_possibly(|_| Err::<u8, (char, &str)>(('x', "never"))), Ok(not_current(4)));

    let n = not_current(4);
    assert_eq!(n.map_not(|_| Ok::<char, (u8, &str)>('c')), Ok(possibly_current('c')));
    let n = not_current(4);
    assert_eq!(n.map_not(|x| Err::<char, (u8, &str)>((x, "e"))), Err((not_current(4), "e")));
    let p = possibly_current('p');
    assert_eq!(p.map_not(|_| Err::<char, (u8, &str)>((0, "never"))), Ok(possibly_current('p')));
}
