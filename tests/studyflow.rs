use studyflow::classify::{match_course, match_course_lowered};
use studyflow::destination::{numbered_name, DestinationError, DestinationSearch, MAX_DUPLICATE_INDEX};
use studyflow::relocate::{after_step, begin_move, MoveNext, MoveStep};
use studyflow::rules::{load_rules, CourseRule};
use studyflow::scan::{plan_file, screen_entry, DirEntry, EntryDecision, ScanCounts};
use studyflow::type_folder::{file_type_folder, TypeFolder};

fn rule(course: &str, keywords: &[&str]) -> CourseRule {
    CourseRule {
        course: course.to_string(),
        keywords: keywords.iter().map(|k| k.to_string()).collect(),
    }
}

fn keywords_of(r: &CourseRule) -> Vec<&str> {
    r.keywords.iter().map(|k| k.as_str()).collect()
}

#[test]
fn classify_twice_gives_same_result() {
    let rules = vec![rule("Math", &["calc"]), rule("Physics", &["mech"])];
    let a = match_course(&rules, "Calc_HW3.pdf");
    let b = match_course(&rules, "Calc_HW3.pdf");
    assert_eq!(a, b);
    assert_eq!(a, Some("Math".to_string()));
    let c = match_course(&rules, "syllabus.pdf");
    let d = match_course(&rules, "syllabus.pdf");
    assert_eq!(c, d);
    assert_eq!(c, None);
}

#[test]
fn first_rule_wins() {
    let rules = vec![rule("A", &["x"]), rule("B", &["x"])];
    assert_eq!(match_course(&rules, "box.txt"), Some("A".to_string()));
}

#[test]
fn later_keyword_of_first_rule_beats_second_rule() {
    let rules = vec![rule("A", &["zzz", "lab"]), rule("B", &["lab"])];
    assert_eq!(match_course(&rules, "lab1.pdf"), Some("A".to_string()));
}

#[test]
fn classification_ignores_case() {
    let rules = vec![rule("Reports", &["report"])];
    assert_eq!(match_course(&rules, "Report.PDF"), Some("Reports".to_string()));
    assert_eq!(match_course(&rules, "ANNUAL_REPORT.docx"), Some("Reports".to_string()));
}

#[test]
fn lowered_matching_is_exact_substring() {
    let rules = vec![rule("Reports", &["report"])];
    assert_eq!(match_course_lowered(&rules, "my report.pdf"), Some("Reports".to_string()));
    assert_eq!(match_course_lowered(&rules, "Report.pdf"), None);
    assert_eq!(match_course_lowered(&rules, "repor.pdf"), None);
}

#[test]
fn empty_keyword_never_matches() {
    let rules = vec![rule("Empty", &[""]), rule("Real", &["a"])];
    assert_eq!(match_course(&rules, "abc"), Some("Real".to_string()));
    let rules = vec![rule("Empty", &[])];
    assert_eq!(match_course(&rules, "abc"), None);
}

#[test]
fn no_rules_means_unsorted() {
    let rules: Vec<CourseRule> = vec![];
    for name in ["a.pdf", "Lecture 1.pptx", "x", "report.txt"] {
        let plan = plan_file(&rules, name);
        assert_eq!(plan.category, "Unsorted");
        assert!(!plan.matched);
    }
}

#[test]
fn plan_uses_rule_and_extension() {
    let rules = vec![rule("Math", &["calc"])];
    let plan = plan_file(&rules, "CALC notes.MD");
    assert_eq!(plan.category, "Math");
    assert_eq!(plan.folder, TypeFolder::Notes);
    assert!(plan.matched);
    let plan = plan_file(&rules, "essay.docx");
    assert_eq!(plan.category, "Unsorted");
    assert_eq!(plan.folder, TypeFolder::Documents);
    assert!(!plan.matched);
}

#[test]
fn extension_case_does_not_matter() {
    assert_eq!(file_type_folder("Report.PDF"), file_type_folder("report.pdf"));
    assert_eq!(file_type_folder("Report.PDF"), TypeFolder::Pdfs);
}

#[test]
fn extension_table_rows() {
    let rows: Vec<(&[&str], TypeFolder, &str)> = vec![
        (&["pdf", "PDF", "Pdf"], TypeFolder::Pdfs, "PDFs"),
        (&["ppt", "PPTX", "pPt"], TypeFolder::Slides, "Slides"),
        (&["doc", "DocX", "DOC"], TypeFolder::Documents, "Documents"),
        (&["png", "JPG", "Jpeg", "GIF", "WebP"], TypeFolder::Images, "Images"),
        (&["zip", "RAR", "7Z", "Tar", "GZ"], TypeFolder::Archives, "Archives"),
        (&["pkg", "PKG"], TypeFolder::Installers, "Installers"),
        (&["MOV", "Mp4", "mkv"], TypeFolder::Videos, "Videos"),
        (&["TXT", "Md"], TypeFolder::Notes, "Notes"),
        (&["CSV", "xlsX"], TypeFolder::Data, "Data"),
    ];
    for (exts, folder, name) in rows {
        for e in exts {
            let file = format!("file.{}", e);
            assert_eq!(file_type_folder(&file), folder, "{}", file);
            assert_eq!(file_type_folder(&file).name(), name);
        }
    }
}

#[test]
fn unknown_or_missing_extension_is_other() {
    assert_eq!(file_type_folder("song.flac"), TypeFolder::Other);
    assert_eq!(file_type_folder("README"), TypeFolder::Other);
    assert_eq!(file_type_folder("trailing."), TypeFolder::Other);
    assert_eq!(file_type_folder(".pdf"), TypeFolder::Other);
    assert_eq!(file_type_folder(".."), TypeFolder::Other);
    assert_eq!(file_type_folder("pdf"), TypeFolder::Other);
    assert_eq!(TypeFolder::Other.name(), "Other");
}

#[test]
fn only_last_extension_counts() {
    assert_eq!(file_type_folder("backup.pdf.zip"), TypeFolder::Archives);
    assert_eq!(file_type_folder("archive.tar.gz"), TypeFolder::Archives);
    assert_eq!(file_type_folder("notes.zip.txt"), TypeFolder::Notes);
}

#[test]
fn collision_names_increase() {
    let mut search = DestinationSearch::new("x.pdf");
    assert_eq!(search.candidate(), "x.pdf");
    assert_eq!(search.advance(), Ok(()));
    assert_eq!(search.candidate(), "x_1.pdf");
    assert_eq!(search.advance(), Ok(()));
    assert_eq!(search.candidate(), "x_2.pdf");
}

#[test]
fn numbered_names() {
    assert_eq!(numbered_name("x.pdf", 0), "x.pdf");
    assert_eq!(numbered_name("x.pdf", 10), "x_10.pdf");
    assert_eq!(numbered_name("notes", 3), "notes_3");
    assert_eq!(numbered_name("archive.tar.gz", 1), "archive.tar_1.gz");
    assert_eq!(numbered_name(".bashrc", 2), ".bashrc_2");
    assert_eq!(numbered_name("a.", 4), "a_4.");
    assert_eq!(numbered_name("x.pdf", 9999), "x_9999.pdf");
}

#[test]
fn collision_search_exhausts() {
    let mut search = DestinationSearch::new("x.pdf");
    search.index = MAX_DUPLICATE_INDEX - 1;
    assert_eq!(search.advance(), Ok(()));
    assert_eq!(search.candidate(), "x_9999.pdf");
    assert_eq!(search.advance(), Err(DestinationError::Exhausted));
    assert_eq!(search.index, MAX_DUPLICATE_INDEX);
}

#[test]
fn rules_parsing_skips_malformed_lines() {
    let src = "# comment line\n\nno colon here\nMath: calc, algebra\n";
    let rules = load_rules(src);
    assert_eq!(rules.len(), 1);
    assert_eq!(rules[0].course, "Math");
    assert_eq!(keywords_of(&rules[0]), vec!["calc", "algebra"]);
}

#[test]
fn rules_keywords_trimmed_and_lowered() {
    let rules = load_rules("  Physics :  Mech ,, WAVES ,  \r\nChem:acid\n: orphan\nEmpty:   \n");
    assert_eq!(rules.len(), 2);
    assert_eq!(rules[0].course, "Physics");
    assert_eq!(keywords_of(&rules[0]), vec!["mech", "waves"]);
    assert_eq!(rules[1].course, "Chem");
    assert_eq!(keywords_of(&rules[1]), vec!["acid"]);
}

#[test]
fn rules_first_colon_splits() {
    let rules = load_rules("A: b:c, d");
    assert_eq!(rules.len(), 1);
    assert_eq!(rules[0].course, "A");
    assert_eq!(keywords_of(&rules[0]), vec!["b:c", "d"]);
}

#[test]
fn rules_with_only_commas_kept_without_keywords() {
    let rules = load_rules("Art: , ,\nMusic: song");
    assert_eq!(rules.len(), 2);
    assert_eq!(rules[0].course, "Art");
    assert!(rules[0].keywords.is_empty());
    assert_eq!(match_course(&rules, "song.mp3"), Some("Music".to_string()));
}

#[test]
fn rules_unicode_white_space_trimmed() {
    let rules = load_rules("\u{3000}Math\u{a0}:\tCalc\u{2003}");
    assert_eq!(rules.len(), 1);
    assert_eq!(rules[0].course, "Math");
    assert_eq!(keywords_of(&rules[0]), vec!["calc"]);
}

#[test]
fn rules_empty_source() {
    assert!(load_rules("").is_empty());
    assert!(load_rules("\n\n# only comments\n   \n").is_empty());
}

#[test]
fn preview_performs_nothing() {
    assert_eq!(begin_move(true), MoveNext::Planned);
    assert_eq!(begin_move(false), MoveNext::Perform(MoveStep::CreateParent));
}

#[test]
fn move_falls_back_to_copy_and_remove() {
    assert_eq!(after_step(MoveStep::CreateParent, true), MoveNext::Perform(MoveStep::Rename));
    assert_eq!(after_step(MoveStep::Rename, true), MoveNext::Moved);
    assert_eq!(after_step(MoveStep::Rename, false), MoveNext::Perform(MoveStep::Copy));
    assert_eq!(after_step(MoveStep::Copy, true), MoveNext::Perform(MoveStep::RemoveSource));
    assert_eq!(after_step(MoveStep::RemoveSource, true), MoveNext::Moved);
}

#[test]
fn move_failures_end_the_move() {
    assert_eq!(
        after_step(MoveStep::CreateParent, false),
        MoveNext::Failed(MoveStep::CreateParent)
    );
    assert_eq!(after_step(MoveStep::Copy, false), MoveNext::Failed(MoveStep::Copy));
    assert_eq!(
        after_step(MoveStep::RemoveSource, false),
        MoveNext::Failed(MoveStep::RemoveSource)
    );
}

#[test]
fn entries_screened() {
    assert!(matches!(screen_entry(DirEntry::Unreadable), EntryDecision::Skip));
    assert!(matches!(screen_entry(DirEntry::NotAFile), EntryDecision::Ignore));
    assert!(matches!(screen_entry(DirEntry::UnnamedFile), EntryDecision::Skip));
    assert!(matches!(
        screen_entry(DirEntry::File(".DS_Store".to_string())),
        EntryDecision::Skip
    ));
    match screen_entry(DirEntry::File("a.pdf".to_string())) {
        EntryDecision::Process(n) => assert_eq!(n, "a.pdf"),
        _ => panic!("a.pdf should be processed"),
    }
}

#[test]
fn counters_follow_decisions() {
    let mut counts = ScanCounts::new();
    counts.count_entry(&EntryDecision::Skip);
    counts.count_entry(&EntryDecision::Ignore);
    counts.count_entry(&EntryDecision::Process("a".to_string()));
    let rules: Vec<CourseRule> = vec![rule("Math", &["calc"])];
    counts.count_plan(&plan_file(&rules, "calc.pdf"));
    counts.count_plan(&plan_file(&rules, "other.pdf"));
    counts.count_outcome(&MoveNext::Planned);
    counts.count_outcome(&MoveNext::Moved);
    counts.count_outcome(&MoveNext::Failed(MoveStep::Copy));
    assert_eq!(counts.skipped, 1);
    assert_eq!(counts.unmatched, 1);
    assert_eq!(counts.processed, 2);
}
