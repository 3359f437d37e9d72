use nvproton::cache::CachePaths;
use nvproton::cache::CacheType;
use nvproton::cache::format_bytes;

#[test]
fn test_format_bytes() {
    assert_eq!(format_bytes(500), "500 B");
    assert_eq!(format_bytes(1024), "1.00 KB");
    assert_eq!(format_bytes(1536), "1.50 KB");
    assert_eq!(format_bytes(1048576), "1.00 MB");
    assert_eq!(format_bytes(1073741824), "1.00 GB");
}

#[test]
fn test_cache_type_names() {
    assert_eq!(CacheType::Dxvk.name(), "dxvk");
    assert_eq!(CacheType::Vkd3d.name(), "vkd3d");
}

#[test]
fn format_bytes_rounds_to_two_places() {
    assert_eq!(format_bytes(1029), "1.00 KB");
    assert_eq!(format_bytes(1100), "1.07 KB");
    assert_eq!(format_bytes(10 * 1024 * 1024 + 512 * 1024), "10.50 MB");
}

#[test]
fn cache_env_vars() {
    assert_eq!(CacheType::Dxvk.env_var(), "DXVK_STATE_CACHE_PATH");
    assert_eq!(CacheType::Steam.env_var(), "");
}

#[test]
fn cache_paths_layout() {
    let paths = CachePaths::from_base("/home/u/.cache/nvproton");
    assert_eq!(paths.dxvk, "/home/u/.cache/nvproton/dxvk");
    assert_eq!(paths.vkd3d, "/home/u/.cache/nvproton/vkd3d");
    assert_eq!(paths.nvidia_gl, "/home/u/.cache/nvproton/gl");
    assert_eq!(paths.mesa, "/home/u/.cache/nvproton/mesa");
    assert_eq!(paths.get(CacheType::Steam), "/home/u/.cache/nvproton");
    assert_eq!(
        paths.for_game(CacheType::Dxvk, "1245620"),
        "/home/u/.cache/nvproton/dxvk/1245620"
    );
}
