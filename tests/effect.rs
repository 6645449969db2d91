use webdav_client::effect::Blocking;

#[test]
fn map_of_ready_is_ready_of_applied() {
    let f = |x: u32| x * 3 + 1;
    assert_eq!(Blocking::map(Blocking::ready(7u32), f), Blocking::ready(f(7)));
    let g = |s: String| s.len();
    assert_eq!(Blocking::map(Blocking::ready("abc".to_string()), g), Blocking::ready(3));
}

#[test]
fn flat_and_then_skips_continuation_on_error() {
    let failed: Result<u32, String> = Err("bad".to_string());
    let r: Result<u32, String> = Blocking::flat_and_then(failed, |_| -> Result<u32, String> {
        panic!("continuation must not run")
    });
    assert_eq!(r, Err("bad".to_string()));
    let failed: Result<u32, String> = Err("bad".to_string());
    let r: Result<u32, String> =
        Blocking::and_then(failed, |_| -> Result<u32, String> { panic!("continuation must not run") });
    assert_eq!(r, Err("bad".to_string()));
}

#[test]
fn and_then_runs_on_success() {
    let ok: Result<u32, String> = Ok(2);
    assert_eq!(Blocking::and_then(ok, |x| Ok::<u32, String>(x + 1)), Ok(3));
    let ok: Result<u32, String> = Ok(2);
    assert_eq!(
        Blocking::flat_and_then(ok, |_| Err::<u32, String>("late".to_string())),
        Err("late".to_string())
    );
    assert_eq!(Blocking::flat_map(4u8, |x| x * 2), 8);
}
