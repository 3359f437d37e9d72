//! Shader-cache bookkeeping: the cache kinds, their directory layout
//! under one base directory, per-game paths, summary records, and the
//! human-readable byte format. Measuring directories on disk and
//! creating or removing them is left to the surrounding I/O code, which
//! hands in the measured numbers.

use vstd::prelude::*;

use crate::strutil::dec_str;
use crate::strutil::digit_char;
use crate::strutil::join_under;
use crate::strutil::joined_path;
use crate::strutil::path_join;
use crate::strutil::str_concat;
use crate::strutil::u64_to_string;

verus! {

/// The cache kinds managed here.
#[derive(Debug, Clone, Copy, PartialEq, Eq, Structural)]
pub enum CacheType {
    Dxvk,
    Vkd3d,
    NvidiaGl,
    Mesa,
    Steam,
}

/// The short name of a cache kind.
pub open spec fn cache_name(t: CacheType) -> Seq<char> {
    match t {
        CacheType::Dxvk => "dxvk"@,
        CacheType::Vkd3d => "vkd3d"@,
        CacheType::NvidiaGl => "nvidia-gl"@,
        CacheType::Mesa => "mesa"@,
        CacheType::Steam => "steam"@,
    }
}

/// The environment variable that points a cache kind at a directory;
/// Steam's cache is not configurable this way.
pub open spec fn cache_env_var(t: CacheType) -> Seq<char> {
    match t {
        CacheType::Dxvk => "DXVK_STATE_CACHE_PATH"@,
        CacheType::Vkd3d => "VKD3D_SHADER_CACHE_PATH"@,
        CacheType::NvidiaGl => "__GL_SHADER_DISK_CACHE_PATH"@,
        CacheType::Mesa => "MESA_SHADER_CACHE_DIR"@,
        CacheType::Steam => ""@,
    }
}

impl CacheType {
    /// The short name of this cache kind.
    pub fn name(&self) -> (r: &'static str)
        ensures
            r@ == cache_name(*self),
    {
        match self {
            CacheType::Dxvk => "dxvk",
            CacheType::Vkd3d => "vkd3d",
            CacheType::NvidiaGl => "nvidia-gl",
            CacheType::Mesa => "mesa",
            CacheType::Steam => "steam",
        }
    }

    /// The environment variable of this cache kind.
    pub fn env_var(&self) -> (r: &'static str)
        ensures
            r@ == cache_env_var(*self),
    {
        match self {
            CacheType::Dxvk => "DXVK_STATE_CACHE_PATH",
            CacheType::Vkd3d => "VKD3D_SHADER_CACHE_PATH",
            CacheType::NvidiaGl => "__GL_SHADER_DISK_CACHE_PATH",
            CacheType::Mesa => "MESA_SHADER_CACHE_DIR",
            CacheType::Steam => "",
        }
    }
}

/// The cache directory layout: one subdirectory per configurable kind
/// under a base directory.
#[derive(Debug, Clone)]
pub struct CachePaths {
    pub base: String,
    pub dxvk: String,
    pub vkd3d: String,
    pub nvidia_gl: String,
    pub mesa: String,
}

/// The directory of a cache kind inside a layout; Steam's entry is the
/// base, which Steam manages itself.
pub open spec fn cache_path(p: CachePaths, t: CacheType) -> Seq<char> {
    match t {
        CacheType::Dxvk => p.dxvk@,
        CacheType::Vkd3d => p.vkd3d@,
        CacheType::NvidiaGl => p.nvidia_gl@,
        CacheType::Mesa => p.mesa@,
        CacheType::Steam => p.base@,
    }
}

impl CachePaths {
    /// The layout under a base directory.
    pub fn from_base(base: &str) -> (r: CachePaths)
        ensures
            r.base@ == base@,
            r.dxvk@ == base@ + seq!['/'] + "dxvk"@,
            r.vkd3d@ == base@ + seq!['/'] + "vkd3d"@,
            r.nvidia_gl@ == base@ + seq!['/'] + "gl"@,
            r.mesa@ == base@ + seq!['/'] + "mesa"@,
    {
        CachePaths {
            base: String::from_str(base),
            dxvk: path_join(base, "dxvk"),
            vkd3d: path_join(base, "vkd3d"),
            nvidia_gl: path_join(base, "gl"),
            mesa: path_join(base, "mesa"),
        }
    }

    /// The directory of a cache kind.
    pub fn get(&self, cache_type: CacheType) -> (r: &String)
        ensures
            r@ == cache_path(*self, cache_type),
    {
        match cache_type {
            CacheType::Dxvk => &self.dxvk,
            CacheType::Vkd3d => &self.vkd3d,
            CacheType::NvidiaGl => &self.nvidia_gl,
            CacheType::Mesa => &self.mesa,
            CacheType::Steam => &self.base,
        }
    }

    /// The per-game directory of a cache kind.
    pub fn for_game(&self, cache_type: CacheType, game_id: &str) -> (r: String)
        ensures
            r@ == joined_path(cache_path(*self, cache_type), game_id@),
    {
        join_under(self.get(cache_type).as_str(), game_id)
    }
}

/// One cache kind's summary: its name, total bytes, file count and
/// per-game directory count.
#[derive(Debug, Clone)]
pub struct CacheStats {
    pub cache_type: String,
    pub total_size_bytes: u64,
    pub file_count: usize,
    pub game_count: usize,
}

/// One game's cache summary across the kinds that keep per-game
/// directories.
#[derive(Debug, Clone)]
pub struct GameCacheInfo {
    pub game_id: String,
    pub dxvk_size: u64,
    pub vkd3d_size: u64,
    pub gl_size: u64,
    pub total_size: u64,
    pub last_modified: Option<u64>,
}

/// Bookkeeping over a cache directory layout.
#[derive(Debug)]
pub struct CacheManager {
    pub paths: CachePaths,
}

impl CacheManager {
    /// A manager over an already resolved layout.
    pub fn new(paths: CachePaths) -> (r: CacheManager)
        ensures
            r.paths == paths,
    {
        CacheManager { paths }
    }

    /// The layout.
    pub fn paths(&self) -> (r: &CachePaths)
        ensures
            r == self.paths,
    {
        &self.paths
    }

    /// The summaries of the four configurable cache kinds, from the
    /// measured size, file count and directory count of each, in the
    /// order dxvk, vkd3d, the driver's cache, mesa.
    pub fn get_stats(&self, measured: &Vec<(u64, usize, usize)>) -> (r: Vec<CacheStats>)
        requires
            measured@.len() == 4,
        ensures
            r@.len() == 4,
            r@[0].cache_type@ == cache_name(CacheType::Dxvk),
            r@[1].cache_type@ == cache_name(CacheType::Vkd3d),
            r@[2].cache_type@ == cache_name(CacheType::NvidiaGl),
            r@[3].cache_type@ == cache_name(CacheType::Mesa),
            forall|i: int|
                0 <= i < 4 ==> (#[trigger] r@[i]).total_size_bytes == measured@[i].0
                    && r@[i].file_count == measured@[i].1 && r@[i].game_count == measured@[i].2,
    {
        let mut r: Vec<CacheStats> = Vec::new();
        r.push(
            CacheStats {
                cache_type: String::from_str(CacheType::Dxvk.name()),
                total_size_bytes: measured[0].0,
                file_count: measured[0].1,
                game_count: measured[0].2,
            },
        );
        r.push(
            CacheStats {
                cache_type: String::from_str(CacheType::Vkd3d.name()),
                total_size_bytes: measured[1].0,
                file_count: measured[1].1,
                game_count: measured[1].2,
            },
        );
        r.push(
            CacheStats {
                cache_type: String::from_str(CacheType::NvidiaGl.name()),
                total_size_bytes: measured[2].0,
                file_count: measured[2].1,
                game_count: measured[2].2,
            },
        );
        r.push(
            CacheStats {
                cache_type: String::from_str(CacheType::Mesa.name()),
                total_size_bytes: measured[3].0,
                file_count: measured[3].1,
                game_count: measured[3].2,
            },
        );
        r
    }

    /// One game's cache summary from the measured sizes of its three
    /// per-game directories, absent directories counting nothing, and
    /// the newest modification time among them, if any.
    pub fn get_game_cache(
        &self,
        game_id: &str,
        dxvk_size: Option<u64>,
        vkd3d_size: Option<u64>,
        gl_size: Option<u64>,
        last_modified: Option<u64>,
    ) -> (r: GameCacheInfo)
        requires
            (match dxvk_size {
                Some(v) => v as int,
                None => 0,
            }) + (match vkd3d_size {
                Some(v) => v as int,
                None => 0,
            }) + (match gl_size {
                Some(v) => v as int,
                None => 0,
            }) <= u64::MAX,
        ensures
            r.game_id@ == game_id@,
            r.dxvk_size == (match dxvk_size {
                Some(v) => v,
                None => 0u64,
            }),
            r.vkd3d_size == (match vkd3d_size {
                Some(v) => v,
                None => 0u64,
            }),
            r.gl_size == (match gl_size {
                Some(v) => v,
                None => 0u64,
            }),
            r.total_size == r.dxvk_size + r.vkd3d_size + r.gl_size,
            r.last_modified == last_modified,
    {
        let d: u64 = match dxvk_size {
            Some(v) => v,
            None => 0,
        };
        let v: u64 = match vkd3d_size {
            Some(x) => x,
            None => 0,
        };
        let g: u64 = match gl_size {
            Some(x) => x,
            None => 0,
        };
        GameCacheInfo {
            game_id: String::from_str(game_id),
            dxvk_size: d,
            vkd3d_size: v,
            gl_size: g,
            total_size: d + v + g,
            last_modified,
        }
    }
}

/// A quantity scaled by a unit, rounded to hundredths, ties to even.
pub open spec fn hundredths(b: nat, unit: nat) -> nat {
    let q = (b * 100) / unit;
    let r = (b * 100) % unit;
    if 2 * r > unit {
        q + 1
    } else if 2 * r == unit && q % 2 == 1 {
        q + 1
    } else {
        q
    }
}

/// A quantity over a unit with two decimal places.
pub open spec fn scaled_str(b: nat, unit: nat) -> Seq<char> {
    let h = hundredths(b, unit);
    dec_str(h / 100) + seq!['.'] + seq![digit_char((h % 100) / 10), digit_char(h % 10)]
}

/// A byte count in human-readable form: scaled to the largest of
/// gibibytes, mebibytes and kibibytes that fits, with two decimal
/// places, or plain bytes below one kibibyte.
pub open spec fn bytes_str(b: nat) -> Seq<char> {
    if b >= 1073741824 {
        scaled_str(b, 1073741824) + " GB"@
    } else if b >= 1048576 {
        scaled_str(b, 1048576) + " MB"@
    } else if b >= 1024 {
        scaled_str(b, 1024) + " KB"@
    } else {
        dec_str(b) + " B"@
    }
}

/// Renders a quantity over a unit with two decimal places.
fn scaled_string(b: u64, unit: u64) -> (r: String)
    requires
        1024 <= unit,
    ensures
        r@ == scaled_str(b as nat, unit as nat),
{
    let num: u128 = (b as u128) * 100;
    let u: u128 = unit as u128;
    let q: u128 = num / u;
    let rem: u128 = num % u;
    let h128: u128 = if 2 * rem > u {
        q + 1
    } else if 2 * rem == u && q % 2 == 1 {
        q + 1
    } else {
        q
    };
    proof {
        assert(q <= num / 1024) by (nonlinear_arith)
            requires
                u >= 1024,
                num >= 0,
                q == num / u,
        ;
        assert(num / 1024 < 0x10000000000000000int) by (nonlinear_arith)
            requires
                num <= 0xffffffffffffffffint * 100,
        ;
        assert(h128 <= q + 1);
        assert(h128 as nat == hundredths(b as nat, unit as nat));
    }
    let h: u64 = h128 as u64;
    let whole = u64_to_string(h / 100);
    let mut r = whole;
    r.append(".");
    r.append(crate::strutil::digit_str((h % 100) / 10));
    r.append(crate::strutil::digit_str(h % 10));
    proof {
        reveal_strlit(".");
        assert(r@ =~= scaled_str(b as nat, unit as nat));
    }
    r
}

/// Renders a byte count in human-readable form.
pub fn format_bytes(bytes: u64) -> (r: String)
    ensures
        r@ == bytes_str(bytes as nat),
{
    if bytes >= 1073741824 {
        str_concat(scaled_string(bytes, 1073741824).as_str(), " GB")
    } else if bytes >= 1048576 {
        str_concat(scaled_string(bytes, 1048576).as_str(), " MB")
    } else if bytes >= 1024 {
        str_concat(scaled_string(bytes, 1024).as_str(), " KB")
    } else {
        str_concat(u64_to_string(bytes).as_str(), " B")
    }
}

} // verus!
