use hoard_index_youtubedl::{
    has_extension, read_sidecar, InfoJson, InfoJsonError, ScrapeError, Scraper, Sidecar, Step,
};

type Outcome = Result<(Vec<u8>, InfoJson), ScrapeError<String>>;

/// Runs a scrape over an in-memory listing; `files` gives each readable file's
/// contents by path.
fn run(listing: Vec<Result<&str, &str>>, files: &[(&str, &str)]) -> Vec<Outcome> {
    let listing = listing
        .into_iter()
        .map(|e| e.map(|p| p.as_bytes().to_vec()).map_err(|e| e.to_string()))
        .collect();
    let mut scraper = Scraper::new(listing);
    let mut out = Vec::new();
    loop {
        match scraper.next_step() {
            Step::Done => break,
            Step::Failed(e) => out.push(Err(ScrapeError::Access(e))),
            Step::Load(sidecar) => {
                let contents = files
                    .iter()
                    .find(|(p, _)| p.as_bytes() == sidecar.path())
                    .map(|(_, c)| c.as_bytes().to_vec())
                    .ok_or_else(|| "no such file".to_string());
                out.push(read_sidecar(sidecar, contents));
            }
        }
    }
    out
}

fn doc(title: &str) -> String {
    format!("{{\"title\": \"{}\", \"id\": \"x\", \"duration\": 12}}", title)
}

#[test]
fn test_scrape_directory() {
    let dominoes = "testdata/Dominoes - HARDCORE Mode - Smarter Every Day 182-9hPIobthvHg";
    let fractals = "testdata/Fractals are typically not self-similar-gB9n2gHsHN4";
    let d_json = format!("{}.info.json", dominoes);
    let f_json = format!("{}.info.json", fractals);
    let d_mp4 = format!("{}.mp4", dominoes);
    let f_jpg = format!("{}.jpg", fractals);
    let d_doc = doc("Dominoes - HARDCORE Mode - Smarter Every Day 182");
    let f_doc = doc("Fractals are typically not self-similar");
    let iter = run(
        vec![Ok(&f_json), Ok(&d_mp4), Ok(&d_json), Ok(&f_jpg)],
        &[(&d_json, &d_doc), (&f_json, &f_doc)],
    );

    let mut info_jsons = iter.into_iter().collect::<Result<Vec<_>, _>>().unwrap();
    info_jsons.sort_by(|(_, a), (_, b)| Ord::cmp(&a.title, &b.title));

    assert_eq!(info_jsons.len(), 2);

    let path_0 = format!("{}{}", "testdata/Dominoes - HARDCORE Mode - ",
                         "Smarter Every Day 182-9hPIobthvHg");
    let path_1 = format!("{}{}", "testdata/Fractals are typically not ",
                         "self-similar-gB9n2gHsHN4");
    assert_eq!(info_jsons[0].0, path_0.as_bytes());
    assert_eq!(info_jsons[1].0, path_1.as_bytes());

    let title_0 = "Dominoes - HARDCORE Mode - Smarter Every Day 182";
    let title_1 = "Fractals are typically not self-similar";
    assert_eq!(info_jsons[0].1.title, title_0);
    assert_eq!(info_jsons[1].1.title, title_1);
}

#[test]
fn two_sidecars_and_an_unrelated_file() {
    let out = run(
        vec![Ok("dir/C.txt"), Ok("dir/B.info.json"), Ok("dir/A.info.json")],
        &[
            ("dir/A.info.json", "{\"title\": \"A\"}"),
            ("dir/B.info.json", "{\"title\": \"B\"}"),
            ("dir/C.txt", "{\"title\": \"C\"}"),
        ],
    );
    assert_eq!(out.len(), 2);
    let mut ok: Vec<(Vec<u8>, InfoJson)> = out.into_iter().map(|r| r.unwrap()).collect();
    ok.sort_by(|(_, a), (_, b)| a.title.cmp(&b.title));
    assert_eq!(ok[0].0, b"dir/A".to_vec());
    assert_eq!(ok[1].0, b"dir/B".to_vec());
    assert_eq!(ok[0].1.title, "A");
    assert_eq!(ok[1].1.title, "B");
}

#[test]
fn base_paths_are_the_sidecar_paths_without_suffix() {
    let names = ["v/one.info.json", "v/two.mkv", "v/three.info.json", "v/four.info.json.bak"];
    let files: Vec<(&str, String)> = names.iter().map(|n| (*n, doc(n))).collect();
    let files_ref: Vec<(&str, &str)> = files.iter().map(|(n, c)| (*n, c.as_str())).collect();
    let out = run(names.iter().map(|n| Ok(*n)).collect(), &files_ref);
    let mut bases: Vec<Vec<u8>> = out.into_iter().map(|r| r.unwrap().0).collect();
    bases.sort();
    assert_eq!(bases, vec![b"v/one".to_vec(), b"v/three".to_vec()]);
    for base in &bases {
        let mut full = base.clone();
        full.extend_from_slice(b".info.json");
        assert!(names.iter().any(|n| n.as_bytes() == full.as_slice()));
    }
}

#[test]
fn invalid_sidecar_fails_at_its_position_and_scraping_goes_on() {
    let out = run(
        vec![Ok("d/bad.info.json"), Ok("d/good.info.json")],
        &[("d/bad.info.json", "{\"title\": "), ("d/good.info.json", "{\"title\": \"G\"}")],
    );
    assert_eq!(out.len(), 2);
    match &out[0] {
        Err(ScrapeError::Parse(path, InfoJsonError::Json(_))) => {
            assert_eq!(path, &b"d/bad.info.json".to_vec())
        }
        other => panic!("unexpected outcome {:?}", other),
    }
    let (base, info) = out[1].as_ref().unwrap();
    assert_eq!(base, &b"d/good".to_vec());
    assert_eq!(info.title, "G");
}

#[test]
fn missing_title_is_a_parse_failure() {
    let out = run(
        vec![Ok("d/a.info.json"), Ok("d/b.info.json")],
        &[("d/a.info.json", "{\"id\": 1}"), ("d/b.info.json", "{\"title\": 7}")],
    );
    assert_eq!(out.len(), 2);
    for o in &out {
        assert!(matches!(o, Err(ScrapeError::Parse(_, InfoJsonError::MissingTitle))));
    }
}

#[test]
fn unreadable_sidecar_is_a_read_failure() {
    let out = run(vec![Ok("d/gone.info.json")], &[]);
    assert_eq!(out.len(), 1);
    match &out[0] {
        Err(ScrapeError::Read(path, e)) => {
            assert_eq!(path, &b"d/gone.info.json".to_vec());
            assert_eq!(e, "no such file");
        }
        other => panic!("unexpected outcome {:?}", other),
    }
}

#[test]
fn entry_error_is_passed_through_and_scraping_goes_on() {
    let out = run(
        vec![Ok("d/x.mp4"), Err("permission denied"), Ok("d/y.info.json")],
        &[("d/y.info.json", "{\"title\": \"Y\"}")],
    );
    assert_eq!(out.len(), 2);
    match &out[0] {
        Err(ScrapeError::Access(e)) => assert_eq!(e, "permission denied"),
        other => panic!("unexpected outcome {:?}", other),
    }
    assert_eq!(out[1].as_ref().unwrap().0, b"d/y".to_vec());
}

#[test]
fn no_sidecars_yield_an_empty_scrape() {
    assert!(run(vec![Ok("d/a.mp4"), Ok("d/b.jpg"), Ok("d/c.INFO.JSON")], &[]).is_empty());
    assert!(run(vec![], &[]).is_empty());
}

#[test]
fn scraper_is_done_and_stays_done() {
    let mut scraper: Scraper<String> = Scraper::new(vec![Ok(b"a.txt".to_vec())]);
    assert!(matches!(scraper.next_step(), Step::Done));
    assert!(matches!(scraper.next_step(), Step::Done));
}

#[test]
fn suffix_is_matched_byte_for_byte() {
    assert!(has_extension(b"a.info.json"));
    assert!(has_extension(b".info.json"));
    assert!(has_extension(b"dir/x y.info.json"));
    assert!(!has_extension(b"a.INFO.json"));
    assert!(!has_extension(b"a.info.jsonx"));
    assert!(!has_extension(b"a.json"));
    assert!(!has_extension(b"info.json"));
    assert!(!has_extension(b""));
    assert!(!has_extension(b"a.info.json "));
}

#[test]
fn sidecar_strips_exactly_the_suffix() {
    let s = Sidecar::new(b"dir/clip.info.json".to_vec()).unwrap();
    assert_eq!(s.path(), b"dir/clip.info.json");
    assert_eq!(s.into_base_path(), b"dir/clip".to_vec());
    let bare = Sidecar::new(b".info.json".to_vec()).unwrap();
    assert_eq!(bare.into_base_path(), Vec::<u8>::new());
    assert!(Sidecar::new(b"dir/clip.json".to_vec()).is_none());
    let s = Sidecar::new(b"k.info.json".to_vec()).unwrap();
    assert_eq!(s.into_path(), b"k.info.json".to_vec());
}

#[test]
fn info_json_reads_title_and_keeps_document() {
    let info = InfoJson::from_bytes(b" {\"title\": \"Caf\\u00e9\", \"view_count\": 3} ").unwrap();
    assert_eq!(info.title, "Caf\u{e9}");
    assert_eq!(info.document["view_count"].as_u64(), Some(3));
    assert!(matches!(InfoJson::from_bytes(b"not json"), Err(InfoJsonError::Json(_))));
    assert!(matches!(InfoJson::from_bytes(b"{} {}"), Err(InfoJsonError::Json(_))));
    assert!(matches!(InfoJson::from_bytes(b"[1, 2]"), Err(InfoJsonError::MissingTitle)));
}
