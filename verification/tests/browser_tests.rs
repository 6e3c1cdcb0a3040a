use valser::browser::order_entries;

fn entry(path: &str, is_dir: bool) -> (String, bool) {
    (path.to_string(), is_dir)
}

#[test]
fn browser_lists_directories_first_then_by_path() {
    let listed = order_entries(vec![
        entry("/music/zeta.mp3", false),
        entry("/music/beta", true),
        entry("/music/alpha.flac", false),
        entry("/music/Alpha", true),
        entry("/music/cover.jpg", false),
    ]);
    assert_eq!(
        listed,
        vec![
            entry("/music/Alpha", true),
            entry("/music/beta", true),
            entry("/music/alpha.flac", false),
            entry("/music/cover.jpg", false),
            entry("/music/zeta.mp3", false),
        ]
    );
}

#[test]
fn browser_empty_directory() {
    assert_eq!(order_entries(Vec::new()), Vec::<(String, bool)>::new());
}

#[test]
fn browser_prefix_comes_first() {
    let listed = order_entries(vec![entry("/m/ab", false), entry("/m/a", false), entry("/m/a", false)]);
    assert_eq!(listed, vec![entry("/m/a", false), entry("/m/a", false), entry("/m/ab", false)]);
}
