use vzdv::training::{progress_list, progress_part_certs, ControllerRating};

#[test]
fn test_progress_list_s1() {
    let rating = ControllerRating::S1.as_id();
    let certs = progress_list(rating, &vec![], &vec![]);

    assert_eq!(certs.len(), 4);
    assert_eq!(certs.get(0).unwrap().style, "success");
    assert_eq!(certs.get(1).unwrap().style, "warning");
    assert_eq!(certs.get(2).unwrap().style, "light");
    assert_eq!(certs.get(3).unwrap().style, "light");
}

#[test]
fn test_progress_list_s3() {
    let rating = ControllerRating::S3.as_id();
    let certs = progress_list(rating, &vec![], &vec![]);

    assert_eq!(certs.len(), 4);
    assert_eq!(certs.get(0).unwrap().style, "success");
    assert_eq!(certs.get(1).unwrap().style, "success");
    assert_eq!(certs.get(2).unwrap().style, "success");
    assert_eq!(certs.get(3).unwrap().style, "warning");
}

#[test]
fn test_progress_list_s2_missing_ground_extra() {
    let rating = ControllerRating::S2.as_id();
    let certs = progress_list(
        rating,
        &vec![String::from("GC EGE T2")],
        &vec![String::from("GC EGE T2"), String::from("GC ASE T2")],
    );

    assert_eq!(certs.len(), 6);
    assert_eq!(certs.get(0).unwrap().style, "success");
    assert_eq!(certs.get(1).unwrap().style, "success");
    assert_eq!(certs.get(2).unwrap().style, "warning");
    assert_eq!(certs.get(3).unwrap().style, "success");
    assert_eq!(certs.get(4).unwrap().style, "light");
    assert_eq!(certs.get(5).unwrap().style, "light");
}

#[test]
fn test_progress_fresh_new_c1() {
    let rating = ControllerRating::C1.as_id();
    let certs = progress_list(
        rating,
        &vec![],
        &vec![
            String::from("GC T2 EGE"),
            String::from("GC T2 ASE"),
            String::from("GC T1"),
            String::from("LC T2 EGE"),
            String::from("LC T2 ASE"),
            String::from("LC T1"),
            String::from("APP T2 GJT"),
            String::from("APP T2 ASE"),
            String::from("APP T1"),
        ],
    );

    assert_eq!(certs.len(), 13);
    assert_eq!(
        certs.iter().map(|c| c.style).collect::<Vec<_>>(),
        vec![
            "success", // S1
            "warning", // first training to do
            "light",   // first out of reach; all other non-rating certs should be "light"
            "light",
            "success", // S2
            "light",
            "light",
            "light",
            "success", // S3
            "light",
            "light",
            "light",
            "success" // C1
        ]
    );
}

#[test]
fn progress_orders_by_group() {
    let certs = progress_list(
        ControllerRating::S3.as_id(),
        &vec![String::from("LC T1")],
        &vec![String::from("APP T1"), String::from("LC T1"), String::from("GC T1")],
    );
    let names: Vec<String> = certs.iter().map(|c| c.name.clone()).collect();
    assert_eq!(names, vec!["S1", "GC T1", "S2", "LC T1", "S3", "APP T1", "C1"]);
    let orders: Vec<usize> = certs.iter().map(|c| c.order).collect();
    assert_eq!(orders, vec![10, 11, 20, 21, 30, 31, 40]);
}

#[test]
fn progress_part_marks_first_missing() {
    let (part, behind) = progress_part_certs(
        20,
        &vec![String::from("LC A")],
        &vec![String::from("LC A"), String::from("GC X"), String::from("LC B"), String::from("LC C")],
        "LC",
        false,
    );
    let styles: Vec<&str> = part.iter().map(|c| c.style).collect();
    assert_eq!(styles, vec!["success", "warning", "light"]);
    assert_eq!(part[2].order, 23);
    assert!(behind);
}
