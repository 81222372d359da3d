use crop_hypr::paths::{
    config_file_path, expand_tilde, fallback_socket_path, join_path, path_is_absolute,
    runtime_socket_path, state_file,
};

#[test]
fn join_follows_path_join() {
    assert_eq!(join_path("/a", "b"), "/a/b");
    assert_eq!(join_path("/a/", "b"), "/a/b");
    assert_eq!(join_path("", "b"), "b");
    assert_eq!(join_path("/a", "/b"), "/b");
    for (base, p) in [("/x/y", "z.png"), ("rel", "f"), ("/", "etc")] {
        let ours = join_path(base, p);
        let std = std::path::Path::new(base).join(p);
        assert_eq!(ours, std.to_str().unwrap());
    }
}

#[test]
fn absolute_paths() {
    assert!(path_is_absolute("/tmp"));
    assert!(!path_is_absolute("tmp"));
    assert!(!path_is_absolute(""));
}

#[test]
fn config_file_location() {
    assert_eq!(config_file_path(Some("/home/u/.config")), "/home/u/.config/crop-hypr/config.toml");
    assert_eq!(config_file_path(None), "./crop-hypr/config.toml");
}

#[test]
fn state_file_location() {
    assert_eq!(
        state_file(Some("/home/u/.local/state")).as_deref(),
        Some("/home/u/.local/state/crop-hypr/last_mode")
    );
    assert_eq!(state_file(None), None);
}

#[test]
fn socket_locations() {
    assert_eq!(runtime_socket_path("/run/user/1000", "abc"), "/run/user/1000/hypr/abc/.socket.sock");
    assert_eq!(fallback_socket_path("abc"), "/tmp/hypr/abc/.socket.sock");
}

#[test]
fn expanded_paths_are_absolute_under_an_absolute_home() {
    for p in ["~", "~/", "~/x", "x/y", "/abs", "", "~user"] {
        assert!(expand_tilde(p, "/home/u").starts_with('/'), "{p}");
    }
    assert_eq!(expand_tilde("~user", "/home/u"), "/home/u/~user");
    assert_eq!(expand_tilde("", "/home/u"), "/home/u/");
}
