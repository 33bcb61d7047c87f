use wgstack::error::Error;
use wgstack::wireguard::window::{mask, Window};

fn accept(w: &mut Window, n: u64) -> Result<u64, Error> {
    w.guard(n, || Ok(n))
}

#[test]
fn replay_scenario() {
    let mut w = Window::empty();
    assert_eq!(accept(&mut w, 0), Ok(0));
    assert_eq!(accept(&mut w, 1), Ok(1));
    assert_eq!(accept(&mut w, 2), Ok(2));
    assert_eq!(accept(&mut w, 5), Ok(5));
    assert_eq!(accept(&mut w, 3), Ok(3));
    assert_eq!(accept(&mut w, 3), Err(Error::Replay));
    assert_eq!(accept(&mut w, 8192), Ok(8192));
    assert_eq!(accept(&mut w, 0), Err(Error::TooOld));
}

#[test]
fn failed_action_marks_nothing() {
    let mut w = Window::empty();
    let r: Result<(), Error> = w.guard(7, || Err(Error::DecryptErr));
    assert_eq!(r, Err(Error::DecryptErr));
    assert_eq!(w.check(7), Ok(()));
    assert_eq!(accept(&mut w, 7), Ok(7));
    assert_eq!(w.check(7), Err(Error::Replay));
}

#[test]
fn action_does_not_run_on_replay() {
    let mut w = Window::new(9);
    let mut ran = false;
    let r: Result<(), Error> = w.guard(9, || {
        ran = true;
        Ok(())
    });
    assert_eq!(r, Err(Error::Replay));
    assert!(!ran);
}

#[test]
fn new_window_holds_only_its_counter() {
    let w = Window::new(130);
    assert_eq!(w.check(130), Err(Error::Replay));
    assert_eq!(w.check(129), Ok(()));
    assert_eq!(w.check(131), Ok(()));
    assert_eq!(w.check(2), Ok(()));
    assert_eq!(w.check(66), Ok(()));
}

#[test]
fn window_edge_is_word_granular() {
    let mut w = Window::empty();
    assert_eq!(accept(&mut w, 8191), Ok(8191));
    // word 127 is the head: word 0 is still inside the span of 128 words
    assert_eq!(accept(&mut w, 0), Ok(0));
    assert_eq!(accept(&mut w, 8192), Ok(8192));
    // word 128 is the head: word 0 has left, word 1 has not
    assert_eq!(accept(&mut w, 63), Err(Error::TooOld));
    assert_eq!(accept(&mut w, 64), Ok(64));
    assert_eq!(accept(&mut w, 64), Err(Error::Replay));
    assert_eq!(accept(&mut w, 8191), Err(Error::Replay));
}

#[test]
fn far_jump_clears_every_word() {
    let mut w = Window::empty();
    for n in 0..200u64 {
        assert_eq!(accept(&mut w, n), Ok(n));
    }
    let far = 1u64 << 40;
    assert_eq!(accept(&mut w, far), Ok(far));
    assert_eq!(accept(&mut w, far), Err(Error::Replay));
    assert_eq!(accept(&mut w, far - 1), Ok(far - 1));
    assert_eq!(accept(&mut w, far - 8128), Ok(far - 8128));
    assert_eq!(accept(&mut w, far - 8129), Err(Error::TooOld));
    assert_eq!(accept(&mut w, 5), Err(Error::TooOld));
}

#[test]
fn acceptance_matches_plain_set() {
    let ns: [u64; 12] = [10, 3, 10, 700, 64, 3, 8000, 701, 700, 0, 8000, 127];
    let mut seen: Vec<u64> = Vec::new();
    let mut w = Window::empty();
    for n in ns {
        let fresh = !seen.contains(&n);
        assert_eq!(accept(&mut w, n).is_ok(), fresh);
        seen.push(n);
    }
}

#[test]
fn mask_is_lsb_first() {
    assert_eq!(mask(0), 1);
    assert_eq!(mask(1), 2);
    assert_eq!(mask(63), 1 << 63);
    assert_eq!(mask(64), 1);
    assert_eq!(mask(130), 4);
}
