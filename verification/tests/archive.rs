use pdf_explorer::archive::{apply_crawl_archive_defaults, archive_slug, resolved_source_name};
use pdf_explorer::cli::{
    DEFAULT_CRAWL_HTML_REPORT, DEFAULT_CRAWL_REPORT, DEFAULT_DOWNLOAD_DIR,
    DEFAULT_MANUAL_REVIEW_DIR,
};

#[test]
fn derives_archive_paths_for_year_and_source_defaults() {
    let mut download_dir = DEFAULT_DOWNLOAD_DIR.to_string();
    let mut manual_review_dir = DEFAULT_MANUAL_REVIEW_DIR.to_string();
    let mut report = DEFAULT_CRAWL_REPORT.to_string();
    let mut html_report = DEFAULT_CRAWL_HTML_REPORT.to_string();

    apply_crawl_archive_defaults(
        Some("2026"),
        "deutsche-meisterschaften",
        &mut download_dir,
        &mut manual_review_dir,
        &mut report,
        &mut html_report,
    );

    assert_eq!(
        download_dir,
        "data/archive/2026/deutsche-meisterschaften/downloads"
    );
    assert_eq!(
        manual_review_dir,
        "data/archive/2026/deutsche-meisterschaften/manual-review"
    );
    assert_eq!(
        report,
        "reports/archive/2026/deutsche-meisterschaften/crawl-report.json"
    );
    assert_eq!(
        html_report,
        "reports/archive/2026/deutsche-meisterschaften/crawl-report.html"
    );
}

#[test]
fn keeps_custom_paths_when_archiving() {
    let mut download_dir = "custom/downloads".to_string();
    let mut manual_review_dir = "custom/manual".to_string();
    let mut report = "custom/report.json".to_string();
    let mut html_report = "custom/report.html".to_string();

    apply_crawl_archive_defaults(
        Some("2026"),
        "landesmeisterschaften",
        &mut download_dir,
        &mut manual_review_dir,
        &mut report,
        &mut html_report,
    );

    assert_eq!(download_dir, "custom/downloads");
    assert_eq!(manual_review_dir, "custom/manual");
    assert_eq!(report, "custom/report.json");
    assert_eq!(html_report, "custom/report.html");
}

#[test]
fn infers_source_name_from_known_ndsb_urls() {
    assert_eq!(
        resolved_source_name(
            "default",
            "https://www.ndsb-sh.de/sport/deutsche-meisterschaften"
        ),
        "deutsche-meisterschaften"
    );
    assert_eq!(
        archive_slug("Deutsche Meisterschaften"),
        "deutsche-meisterschaften"
    );
}

#[test]
fn leaves_paths_alone_without_a_year() {
    let mut download_dir = DEFAULT_DOWNLOAD_DIR.to_string();
    let mut manual_review_dir = DEFAULT_MANUAL_REVIEW_DIR.to_string();
    let mut report = DEFAULT_CRAWL_REPORT.to_string();
    let mut html_report = DEFAULT_CRAWL_HTML_REPORT.to_string();
    apply_crawl_archive_defaults(
        Some("  "),
        "x",
        &mut download_dir,
        &mut manual_review_dir,
        &mut report,
        &mut html_report,
    );
    assert_eq!(download_dir, DEFAULT_DOWNLOAD_DIR);
}

#[test]
fn slugs_fall_back_to_source() {
    assert_eq!(archive_slug("--"), "source");
    assert_eq!(archive_slug("  Kreis: Stormarn!! "), "kreis-stormarn");
    assert_eq!(resolved_source_name("mine", "x/landesmeisterschaften"), "mine");
}

#[test]
fn slugs_hold_only_lowercase_letters_digits_and_single_dashes() {
    assert_eq!(archive_slug("Deutsche Meisterschaften"), "deutsche-meisterschaften");
    assert_eq!(archive_slug("--Kreis  Stormarn!!  2026--"), "kreis-stormarn-2026");
    assert_eq!(archive_slug("ÄÖÜ"), "source");
    assert_eq!(archive_slug(""), "source");
    assert_eq!(archive_slug("Bürger Schützen"), "b-rger-sch-tzen");
}

#[test]
fn archive_paths_join_year_and_slug_with_single_slashes() {
    let mut download_dir = DEFAULT_DOWNLOAD_DIR.to_string();
    let mut manual_review_dir = "custom/manual".to_string();
    let mut report = DEFAULT_CRAWL_REPORT.to_string();
    let mut html_report = DEFAULT_CRAWL_HTML_REPORT.to_string();
    apply_crawl_archive_defaults(
        Some(" 2025 "),
        "Landes Meisterschaften",
        &mut download_dir,
        &mut manual_review_dir,
        &mut report,
        &mut html_report,
    );
    assert_eq!(download_dir, "data/archive/2025/landes-meisterschaften/downloads");
    assert_eq!(manual_review_dir, "custom/manual");
    assert_eq!(report, "reports/archive/2025/landes-meisterschaften/crawl-report.json");
    assert_eq!(html_report, "reports/archive/2025/landes-meisterschaften/crawl-report.html");
}

#[test]
fn default_paths_are_recognised_as_paths_not_as_text() {
    let mut download_dir = "data/downloads/".to_string();
    let mut manual_review_dir = "data//manual-review".to_string();
    let mut report = "./reports/latest-crawl-report.json".to_string();
    let mut html_report = "reports/./latest-crawl-report.html".to_string();
    apply_crawl_archive_defaults(
        Some("2026"),
        "landesmeisterschaften",
        &mut download_dir,
        &mut manual_review_dir,
        &mut report,
        &mut html_report,
    );
    assert_eq!(download_dir, "data/archive/2026/landesmeisterschaften/downloads");
    assert_eq!(manual_review_dir, "data/archive/2026/landesmeisterschaften/manual-review");
    assert_eq!(report, "./reports/latest-crawl-report.json");
    assert_eq!(html_report, "reports/archive/2026/landesmeisterschaften/crawl-report.html");
}
