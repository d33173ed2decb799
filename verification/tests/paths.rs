use phira::paths::{android_external_dir, split_slash_parts};

#[test]
fn external_dir_of_the_app() {
    assert_eq!(
        android_external_dir("/data/user/0/quad.phira/files").as_deref(),
        Some("/storage/emulated/0/Android/data/quad.phira/files")
    );
    assert_eq!(android_external_dir("/data/user/10/pkg").as_deref(), Some("/storage/emulated/10/Android/data/pkg/files"));
    assert_eq!(android_external_dir("/data/data/quad.phira/files"), None);
    assert_eq!(android_external_dir("/data/user//pkg/files"), None);
    assert_eq!(android_external_dir("<JNI Not Initialized>"), None);
}

#[test]
fn split_on_slashes() {
    assert_eq!(split_slash_parts(""), vec![""]);
    assert_eq!(split_slash_parts("/a//b/"), vec!["", "a", "", "b", ""]);
    assert_eq!(split_slash_parts("音/乐"), vec!["音", "乐"]);
}
