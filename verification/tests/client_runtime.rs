use client::client_runtime::{
    download_requests, ClientState, RegisterReply, Session,
    chunk_offsets, client_lib, missing_mods, mod_dir, mod_hash, mod_library_path, poll_downloads,
    split_name_path, trim, LoadingMod,
};

#[test]
fn mod_file_paths() {
    assert_eq!(client_lib("mods/world", "world"), "runtime/mods/world/world_client.so");
    assert_eq!(mod_hash("mods/world"), "runtime/mods/world.hash");
    assert_eq!(mod_dir("mods/world"), "runtime/mods/world");
    assert_eq!(mod_library_path("world:mods/world"), Some("runtime/mods/world/world_client.so".to_string()));
    assert_eq!(mod_library_path("world"), None);
}

#[test]
fn name_and_path_split_at_the_first_colon() {
    assert_eq!(split_name_path("a:b:c"), Some(("a", "b:c")));
    assert_eq!(split_name_path(":x"), Some(("", "x")));
    assert_eq!(split_name_path("nocolon"), None);
}

#[test]
fn trim_drops_surrounding_white_space() {
    assert_eq!(trim("  abc \n"), "abc");
    assert_eq!(trim("\t\u{3000}x y\u{a0}"), "x y");
    assert_eq!(trim("   "), "");
    assert_eq!(trim(""), "");
}

#[test]
fn a_mod_with_the_servers_hash_is_present() {
    let m = LoadingMod::from_entry("world:mods/world", vec!["f".to_string()], "abc".to_string(), 10, " abc\n").unwrap();
    assert!(m.available());
    assert_eq!(m.size(), 10);
    assert!(m.data().is_empty());
    assert_eq!(m.name(), "world");
    assert_eq!(m.path(), "world");
    assert_eq!(m.flags(), &vec!["f".to_string()]);
}

#[test]
fn a_mod_with_another_hash_waits_for_its_bytes() {
    let m = LoadingMod::from_entry("world:mods/world", vec![], "abc".to_string(), 5, "abd").unwrap();
    assert!(!m.available());
    assert_eq!(m.size(), 0);
    assert_eq!(m.data(), &[0, 0, 0, 0, 0]);
    assert_eq!(m.total_size(), 5);
    assert!(LoadingMod::from_entry("nocolon", vec![], "abc".to_string(), 5, "abc").is_none());
}

#[test]
fn chunks_cover_the_archive() {
    assert_eq!(chunk_offsets(10, 4), vec![0, 4, 8]);
    assert_eq!(chunk_offsets(8, 4), vec![0, 4]);
    assert!(chunk_offsets(0, 4).is_empty());
}

#[test]
fn received_chunks_complete_a_download() {
    let archive: Vec<u8> = (1..=10).collect();
    let mut m = LoadingMod::from_entry("w:p", vec![], "h".to_string(), 10, "").unwrap();
    for off in chunk_offsets(10, 4) {
        let end = std::cmp::min(off as usize + 4, 10);
        m.receive_chunk(off, &archive[off as usize..end]);
    }
    assert_eq!(m.data(), archive.as_slice());
    assert_eq!(m.size(), 10);
    let mut mods = vec![m, LoadingMod::from_entry("v:q", vec![], "h".to_string(), 3, "h").unwrap()];
    assert_eq!(missing_mods(&mods), (1, 10));
    let (done, completed) = poll_downloads(&mut mods, 10);
    assert!(done);
    assert_eq!(completed, vec![0]);
    assert!(mods[0].available());
    assert_eq!(missing_mods(&mods), (0, 0));
}

#[test]
fn an_incomplete_download_is_not_done() {
    let mut m = LoadingMod::from_entry("w:p", vec![], "h".to_string(), 4, "").unwrap();
    m.receive_chunk(2, &[7, 8]);
    assert_eq!(m.data(), &[0, 0, 7, 8]);
    let mut mods = vec![m];
    let (done, completed) = poll_downloads(&mut mods, 4);
    assert!(!done);
    assert!(completed.is_empty());
    assert!(!mods[0].available());
}

#[test]
fn download_requests_name_each_chunk_of_each_missing_mod() {
    let a = LoadingMod::from_entry("a:pa", vec![], "h".to_string(), 5, "").unwrap();
    let b = LoadingMod::from_entry("b:pb", vec![], "h".to_string(), 3, "h").unwrap();
    let c = LoadingMod::from_entry("c:pc", vec![], "h".to_string(), 2, "x").unwrap();
    assert_eq!(a.name_path(), "a:pa");
    let mods = vec![a, b, c];
    assert_eq!(download_requests(&mods, 2), vec![(0, 0), (0, 2), (0, 4), (2, 0)]);
}

#[test]
fn registration_and_download_move_the_session_on() {
    let mut s = Session::new();
    assert_eq!(s.state(), ClientState::Start);
    assert!(!s.on_register_reply(RegisterReply::Refused));
    assert_eq!(s.state(), ClientState::Start);
    assert!(s.on_register_reply(RegisterReply::Accepted {
        mod_profile: "base".to_string(),
        mod_profile_version: "1.0".to_string(),
    }));
    assert_eq!(s.state(), ClientState::Registered);
    assert_eq!((s.mod_profile(), s.mod_profile_version()), ("base", "1.0"));
    s.on_downloads_polled(false);
    assert_eq!(s.state(), ClientState::Registered);
    s.on_downloads_polled(true);
    assert_eq!(s.state(), ClientState::DownloadedMods);
    assert!(!s.on_register_reply(RegisterReply::Invalid));
}
