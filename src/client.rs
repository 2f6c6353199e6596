//! Which files of an installed client are copied into the folder that the
//! game is started from.
use vstd::prelude::*;
use crate::codec::utf8_check;
use vstd::utf8::valid_utf8;
use crate::name::{ends_with, has_suffix};
use crate::path::{bytes_equal, file_name, find_file_name};

verus! {

/// `CloneWars.exe`, the executable that is started.
pub open spec fn client_executable() -> Seq<u8> {
    seq![0x43u8, 0x6c, 0x6f, 0x6e, 0x65, 0x57, 0x61, 0x72, 0x73, 0x2e, 0x65, 0x78, 0x65]
}

/// `ClientConfig.ini`, written fresh for every start.
pub open spec fn client_config() -> Seq<u8> {
    seq![0x43u8, 0x6c, 0x69, 0x65, 0x6e, 0x74, 0x43, 0x6f, 0x6e, 0x66, 0x69, 0x67, 0x2e, 0x69, 0x6e, 0x69]
}

/// `UserOptions.ini`, kept from earlier starts.
pub open spec fn user_options() -> Seq<u8> {
    seq![0x55u8, 0x73, 0x65, 0x72, 0x4f, 0x70, 0x74, 0x69, 0x6f, 0x6e, 0x73, 0x2e, 0x69, 0x6e, 0x69]
}

/// `.pack`
pub open spec fn pack_suffix() -> Seq<u8> {
    seq![0x2eu8, 0x70, 0x61, 0x63, 0x6b]
}

/// Whether `s` holds `W_` somewhere.
pub open spec fn holds_web_marker(s: Seq<u8>) -> bool {
    exists|i: int| 0 <= i < s.len() - 1 && #[trigger] s[i] == 0x57 && s[i + 1] == 0x5f
}

/// A pack that the client downloaded from the web: its name holds `W_` and
/// ends with `.pack`.
pub open spec fn web_downloaded_pack(name: Seq<u8>) -> bool {
    holds_web_marker(name) && ends_with(name, pack_suffix())
}

/// Whether the file at `path` is copied: every file but the executable, the
/// two configuration files and packs downloaded from the web; a path whose
/// file name is missing or not UTF-8 is copied too.
pub open spec fn copied(path: Seq<u8>) -> bool {
    match file_name(path) {
        Some(name) => !valid_utf8(name) || (name != client_executable() && name != client_config()
            && name != user_options() && !web_downloaded_pack(name)),
        None => true,
    }
}

/// Whether `file_name` names a pack downloaded from the web.
pub fn is_web_downloaded_pack(file_name: &[u8]) -> (r: bool)
    ensures
        r == web_downloaded_pack(file_name@),
{
    let n = file_name.len();
    let mut found = false;
    let mut i: usize = 0;
    while i < n
        invariant
            n == file_name@.len(),
            i <= n,
            found == exists|j: int| 0 <= j < i && j < n - 1 && #[trigger] file_name@[j] == 0x57 && file_name@[j + 1] == 0x5f,
        decreases n - i,
    {
        if i + 1 < n && file_name[i] == 0x57 && file_name[i + 1] == 0x5f {
            found = true;
        }
        i = i + 1;
    }
    let suffix: Vec<u8> = vec![0x2e, 0x70, 0x61, 0x63, 0x6b];
    assert(suffix@ =~= pack_suffix());
    found && has_suffix(file_name, suffix.as_slice())
}

/// Whether the file at `path` is copied into the folder the game starts
/// from.
pub fn should_copy(path: &[u8]) -> (r: bool)
    ensures
        r == copied(path@),
{
    let name = match find_file_name(path) {
        Some(name) => name,
        None => {
            return true;
        },
    };
    if !utf8_check(name.as_slice()) {
        return true;
    }
    let name = name.as_slice();
    let exe: Vec<u8> = vec![0x43, 0x6c, 0x6f, 0x6e, 0x65, 0x57, 0x61, 0x72, 0x73, 0x2e, 0x65, 0x78, 0x65];
    let cfg: Vec<u8> = vec![0x43, 0x6c, 0x69, 0x65, 0x6e, 0x74, 0x43, 0x6f, 0x6e, 0x66, 0x69, 0x67, 0x2e, 0x69, 0x6e, 0x69];
    let opts: Vec<u8> = vec![0x55, 0x73, 0x65, 0x72, 0x4f, 0x70, 0x74, 0x69, 0x6f, 0x6e, 0x73, 0x2e, 0x69, 0x6e, 0x69];
    assert(exe@ =~= client_executable());
    assert(cfg@ =~= client_config());
    assert(opts@ =~= user_options());
    !bytes_equal(name, exe.as_slice()) && !bytes_equal(name, cfg.as_slice()) && !bytes_equal(
        name,
        opts.as_slice(),
    ) && !is_web_downloaded_pack(name)
}

} // verus!
