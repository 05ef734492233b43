use complexity_radar::changes::{count_file_changes, top_changed_files};

fn names(entries: &[(&str, u32)]) -> Vec<String> {
    // Repeats each name as often as its count says, interleaved so that the
    // counting cannot rely on grouped input.
    let mut out: Vec<String> = Vec::new();
    let mut round: u32 = 0;
    loop {
        let mut pushed = false;
        for (name, count) in entries {
            if round < *count {
                out.push(name.to_string());
                pushed = true;
            }
        }
        if !pushed {
            break;
        }
        round += 1;
    }
    out
}

#[test]
fn counting_keeps_first_occurrence_order() {
    let filenames = vec![
        "b.rs".to_string(),
        "a.rs".to_string(),
        "b.rs".to_string(),
        "c.rs".to_string(),
        "a.rs".to_string(),
        "b.rs".to_string(),
    ];
    let counts = count_file_changes(&filenames);
    assert_eq!(
        counts,
        vec![
            ("b.rs".to_string(), 3),
            ("a.rs".to_string(), 2),
            ("c.rs".to_string(), 1),
        ]
    );
}

#[test]
fn counting_an_empty_history_yields_nothing() {
    let counts = count_file_changes(&Vec::new());
    assert_eq!(counts, Vec::<(String, u32)>::new());
}

#[test]
fn get_the_top_changed_files_in_descending_order() {
    // The change history of a small repository: five files, changed 15,
    // 7, 4, 3 and 1 times.  The five most changed come back ordered by
    // descending change count.
    let filenames = names(&[
        ("README.md", 15),
        ("generate-quantum-programs.py", 7),
        ("large_quantum_program_input.json", 4),
        ("quantum_program_input.json", 3),
        ("LICENSE", 1),
    ]);
    let top = top_changed_files(&filenames, 5);
    let expected: Vec<(String, u32)> = vec![
        ("README.md".into(), 15),
        ("generate-quantum-programs.py".into(), 7),
        ("large_quantum_program_input.json".into(), 4),
        ("quantum_program_input.json".into(), 3),
        ("LICENSE".into(), 1),
    ];
    assert_eq!(top, expected);
}

#[test]
fn the_listing_is_cut_to_the_requested_length() {
    let filenames = names(&[("a", 5), ("b", 4), ("c", 3), ("d", 2), ("e", 1)]);
    let top = top_changed_files(&filenames, 2);
    assert_eq!(top, vec![("a".to_string(), 5), ("b".to_string(), 4)]);
}

#[test]
fn asking_for_more_files_than_exist_returns_them_all() {
    let filenames = vec!["one.rs".to_string(), "two.rs".to_string()];
    let top = top_changed_files(&filenames, 10);
    assert_eq!(top.len(), 2);
}

#[test]
fn unsorted_input_comes_back_sorted() {
    // The rarely-changed file comes first in the history; the sort must
    // reorder, so a listing handed back unchanged would fail here.
    let filenames = names(&[("rare.rs", 1), ("hot.rs", 6), ("warm.rs", 3)]);
    let top = top_changed_files(&filenames, 3);
    assert_eq!(
        top,
        vec![
            ("hot.rs".to_string(), 6),
            ("warm.rs".to_string(), 3),
            ("rare.rs".to_string(), 1),
        ]
    );
}

#[test]
fn tied_counts_keep_every_tied_file() {
    let filenames = names(&[("x.rs", 2), ("y.rs", 2), ("z.rs", 1)]);
    let top = top_changed_files(&filenames, 2);
    assert_eq!(top.len(), 2);
    assert_eq!(top[0].1, 2);
    assert_eq!(top[1].1, 2);
    let kept: Vec<&str> = top.iter().map(|p| p.0.as_str()).collect();
    assert!(kept.contains(&"x.rs"));
    assert!(kept.contains(&"y.rs"));
}
