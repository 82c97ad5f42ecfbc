use nafa::jtag::{follow_path, get_path, graph, paths, Path, State};

fn follow(start: State, path: Path) -> State {
    let mut cur = start;
    let mut it = path.into_iter();
    while let Some(dir) = it.next() {
        cur = graph().get(cur).get(dir);
    }
    cur
}

fn render(path: Path) -> String {
    let mut out = String::new();
    let mut it = path.into_iter();
    while let Some(bit) = it.next() {
        out.push(if bit { '1' } else { '0' });
    }
    assert_eq!(path.to_string(), out);
    out
}

#[test]
fn test_path() {
    let table = paths();
    for start in State::variants() {
        for end in State::variants() {
            let path = *table.get(start).get(end);
            let result = follow(start, path);
            assert!(
                end == result,
                "
goal:   {start:?} -> {end:?}
path:   {path}
result: {result:?}",
                path = path.to_string(),
            );
        }
    }
}

#[test]
fn every_route_holds_one_to_eight_bits() {
    let table = paths();
    let mut longest = 0;
    for start in State::variants() {
        for end in State::variants() {
            let path = *table.get(start).get(end);
            assert!(1 <= path.len && path.len <= 8);
            assert_eq!(follow_path(start, path), end);
            longest = longest.max(path.len);
        }
    }
    assert_eq!(longest, 8);
}

#[test]
fn routes_are_shortest_with_zero_first() {
    let p = get_path(State::RunTestIdle, State::ShiftDR);
    assert_eq!((p.path, p.len), (0b100, 3));
    let p = get_path(State::RunTestIdle, State::ShiftIR);
    assert_eq!((p.path, p.len), (0b1100, 4));
    let p = get_path(State::ShiftDR, State::RunTestIdle);
    assert_eq!((p.path, p.len), (0b110, 3));
    let p = get_path(State::CaptureDR, State::Exit2IR);
    assert_eq!((p.path, p.len), (245, 8));
    let p = get_path(State::RunTestIdle, State::RunTestIdle);
    assert_eq!((p.path, p.len), (0, 1));
    let p = get_path(State::SelectDR, State::SelectDR);
    assert_eq!((p.path, p.len), (0b0111, 4));
}

#[test]
fn named_paths_reach_their_state_from_anywhere() {
    for start in State::variants() {
        assert_eq!(follow(start, Path::reset()), State::TestLogicReset);
        assert_eq!(follow(start, Path::idle()), State::RunTestIdle);
    }
    assert_eq!(render(Path::reset()), "11111");
    assert_eq!(render(Path::idle()), "111110");
    assert_eq!(Path { path: 0, len: 0 }.to_string(), "");
    assert_eq!(Path { path: 245, len: 8 }.to_string(), "11110101");
}

#[test]
fn as_clocked_packs_the_first_bit_lowest() {
    assert_eq!(Path::reset().as_clocked(), 0x1f);
    assert_eq!(Path::idle().as_clocked(), 0b011111);
    assert_eq!(Path { path: 0b100, len: 3 }.as_clocked(), 0b001);
    assert_eq!(Path { path: 245, len: 8 }.as_clocked(), 0b10101111);
    assert_eq!(Path { path: 0, len: 0 }.as_clocked(), 0);
}

#[test]
fn edges_follow_the_standard() {
    assert_eq!(State::TestLogicReset.edges().get(false), State::RunTestIdle);
    assert_eq!(State::TestLogicReset.edges().get(true), State::TestLogicReset);
    assert_eq!(State::ShiftDR.edges().get(false), State::ShiftDR);
    assert_eq!(State::ShiftDR.edges().get(true), State::Exit1DR);
    assert_eq!(State::UpdateIR.edges().get(true), State::SelectDR);
    for (i, s) in State::variants().into_iter().enumerate() {
        assert_eq!(s.index(), i);
        assert_eq!(State::from_index(i), s);
    }
}
