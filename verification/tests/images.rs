use sky_daemon::runtime::image::{encode_query, image_path, pull_path, split_image_ref};

#[test]
fn split_image_ref_handles_tags_registries_and_defaults() {
    assert_eq!(split_image_ref("itzg/minecraft-server"), ("itzg/minecraft-server".into(), "latest".into()));
    assert_eq!(split_image_ref("node:22-alpine"), ("node".into(), "22-alpine".into()));
    assert_eq!(split_image_ref("itzg/minecraft-server:java21"), ("itzg/minecraft-server".into(), "java21".into()));
    // A registry's host and port must not be mistaken for a tag.
    assert_eq!(
        split_image_ref("registry.example.com:5000/team/img"),
        ("registry.example.com:5000/team/img".into(), "latest".into())
    );
    assert_eq!(
        split_image_ref("registry.example.com:5000/team/img:v2"),
        ("registry.example.com:5000/team/img".into(), "v2".into())
    );
    // A digest has no tag.
    assert_eq!(
        split_image_ref("itzg/minecraft-server@sha256:abc123"),
        ("itzg/minecraft-server@sha256:abc123".into(), String::new())
    );
}

#[test]
fn encode_query_escapes_only_unsafe_chars() {
    assert_eq!(encode_query("itzg/minecraft-server"), "itzg/minecraft-server");
    assert_eq!(encode_query("node:22-alpine"), "node:22-alpine");
    assert_eq!(encode_query("weird&tag=x"), "weird%26tag%3Dx");
}

#[test]
fn encode_query_escapes_each_byte() {
    assert_eq!(encode_query("\u{e9} ~"), "%C3%A9%20~");
    assert_eq!(encode_query("#?%\u{0}\u{7f}"), "%23%3F%25%00%7F");
    assert_eq!(encode_query(""), "");
}

#[test]
fn an_empty_tag_counts_as_none() {
    assert_eq!(split_image_ref("node:"), ("node:".into(), "latest".into()));
    assert_eq!(split_image_ref(""), ("".into(), "latest".into()));
    assert_eq!(split_image_ref("a:b:c"), ("a:b".into(), "c".into()));
}

#[test]
fn pull_and_look_up_paths_are_escaped() {
    assert_eq!(pull_path("node:22-alpine"), "/images/create?fromImage=node&tag=22-alpine");
    assert_eq!(pull_path("a@sha256:1"), "/images/create?fromImage=a%40sha256:1");
    assert_eq!(image_path("reg:5000/img:tag"), "/images/reg:5000/img:tag/json");
    assert_eq!(image_path("a b"), "/images/a%20b/json");
}
