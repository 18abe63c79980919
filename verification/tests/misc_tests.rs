use labworks::downloader::{concurrency, download_plan, page_file_name};
use labworks::macros_demo::{format_list, run};
use labworks::uploader::FsUploader;

#[test]
fn page_names_number_the_urls() {
    assert_eq!(page_file_name(3), "page_3.html");
    let plan = download_plan("http://a\nhttp://b\n");
    assert_eq!(plan.len(), 2);
    assert_eq!(plan[1].url, "http://b");
    assert_eq!(plan[1].file, "page_1.html");
}

#[test]
fn concurrency_defaults_to_cpus() {
    assert_eq!(concurrency(Some(4)), 4);
    assert!(concurrency(None) >= 1);
}

#[test]
fn macros_demo_lines() {
    assert_eq!(run(), vec!["Hello from macro!", "Vector: [1, 2, 3]", "This is println! macro from std"]);
    assert_eq!(format_list(&vec![-5, 0, 12]), format!("{:?}", vec![-5, 0, 12]));
    assert_eq!(format_list(&vec![]), "[]");
}

#[test]
fn fs_uploader_writes_into_directory() {
    assert_eq!(FsUploader.target_path("output", "a.png"), "output/a.png");
}
