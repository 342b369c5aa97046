//! Where a file's bytes come from: a memory map on local file systems, one sequential read on
//! network mounts.
//!
//! A failed access to a mapped page of a network file kills the process, and page faults defeat
//! the read-ahead of such mounts, so that a plain read serves them better.

use vstd::prelude::*;
use vstd::string::*;
use crate::text::{lowered, same, to_lower, trim, trimmed};

verus! {

/// How files are read.
#[derive(Debug, Clone, Copy, PartialEq, Eq, Structural)]
pub enum IoMode {
    /// A read on a network file system, else a map.
    Auto,
    /// Always a map.
    Mmap,
    /// Always a read into memory.
    Read,
}

/// The mode that a text names, or why it names none.
pub open spec fn mode_of(s: Seq<char>) -> Result<IoMode, Seq<char>> {
    let word = lowered(trimmed(s));
    if word == "auto"@ {
        Ok(IoMode::Auto)
    } else if word == "mmap"@ {
        Ok(IoMode::Mmap)
    } else if word == "read"@ {
        Ok(IoMode::Read)
    } else {
        Err("invalid io mode '"@ + word + "' (expected auto|mmap|read)"@)
    }
}

impl IoMode {
    /// Reads a mode; white space around it and the case of its letters do not count.
    pub fn parse(s: &str) -> (r: Result<IoMode, String>)
        ensures
            match (r, mode_of(s@)) {
                (Ok(m), Ok(want)) => m == want,
                (Err(e), Err(want)) => e@ == want,
                _ => false,
            },
    {
        let word = to_lower(trim(s));
        if same(word.as_str(), "auto") {
            Ok(IoMode::Auto)
        } else if same(word.as_str(), "mmap") {
            Ok(IoMode::Mmap)
        } else if same(word.as_str(), "read") {
            Ok(IoMode::Read)
        } else {
            let mut e = "invalid io mode '".to_owned();
            e.append(word.as_str());
            e.append("' (expected auto|mmap|read)");
            Err(e)
        }
    }

    /// The mode's name.
    pub fn name(&self) -> (s: &'static str)
        ensures
            s@ == match *self {
                IoMode::Auto => "auto"@,
                IoMode::Mmap => "mmap"@,
                IoMode::Read => "read"@,
            },
            mode_of(s@) == Ok::<IoMode, Seq<char>>(*self),
    {
        proof {
            lemma_mode_names();
        }
        match self {
            IoMode::Auto => "auto",
            IoMode::Mmap => "mmap",
            IoMode::Read => "read",
        }
    }
}

/// The three names need no trimming and no lowering.
proof fn lemma_mode_names()
    ensures
        lowered(trimmed("auto"@)) == "auto"@,
        lowered(trimmed("mmap"@)) == "mmap"@,
        lowered(trimmed("read"@)) == "read"@,
        "auto"@ != "mmap"@,
        "auto"@ != "read"@,
        "mmap"@ != "read"@,
{
    reveal_strlit("auto");
    reveal_strlit("mmap");
    reveal_strlit("read");
    assert("auto"@[0] == 'a' && "mmap"@[0] == 'm' && "read"@[0] == 'r');
    assert(lowered("auto"@) =~= "auto"@);
    assert(lowered("mmap"@) =~= "mmap"@);
    assert(lowered("read"@) =~= "read"@);
}

impl std::str::FromStr for IoMode {
    type Err = String;

    fn from_str(s: &str) -> (r: Result<IoMode, String>)
        ensures
            match (r, mode_of(s@)) {
                (Ok(m), Ok(want)) => m == want,
                (Err(e), Err(want)) => e@ == want,
                _ => false,
            },
    {
        IoMode::parse(s)
    }
}

/// The mode that the environment sets: automatic where it is not set or cannot be read.
pub fn io_mode(raw: Option<&str>) -> (m: IoMode)
    ensures
        m == match raw {
            None => IoMode::Auto,
            Some(text) => match mode_of(text@) {
                Ok(mode) => mode,
                Err(_) => IoMode::Auto,
            },
        },
{
    match raw {
        None => IoMode::Auto,
        Some(text) => match IoMode::parse(text) {
            Ok(mode) => mode,
            Err(_) => IoMode::Auto,
        },
    }
}

/// The type numbers of file systems whose files lie behind a network.
pub open spec fn is_network_magic(magic: u64) -> bool {
    ||| magic == 0x6969  // NFS
    ||| magic == 0x517B  // SMB
    ||| magic == 0xFE534D42  // SMB2
    ||| magic == 0xFF534D42  // CIFS
    ||| magic == 0x0BD00BD0  // Lustre
    ||| magic == 0x00C36400  // Ceph
    ||| magic == 0x65735546  // FUSE
    ||| magic == 0x01021997  // 9p
    ||| magic == 0x47504653  // GPFS
    ||| magic == 0x01161970  // GFS2
    ||| magic == 0x7461636F  // OCFS2
    ||| magic == 0x5346414F  // AFS
    ||| magic == 0x73757245  // Coda
}

/// Whether a file lies behind a network, by the type number of its file system; where that cannot
/// be told, it does not.
pub fn is_network_fs(magic: Option<u64>) -> (b: bool)
    ensures
        b == (magic matches Some(m) && is_network_magic(m)),
{
    match magic {
        None => false,
        Some(m) => m == 0x6969 || m == 0x517B || m == 0xFE534D42 || m == 0xFF534D42 || m
            == 0x0BD00BD0 || m == 0x00C36400 || m == 0x65735546 || m == 0x01021997 || m
            == 0x47504653 || m == 0x01161970 || m == 0x7461636F || m == 0x5346414F || m
            == 0x73757245,
    }
}

/// Whether to map a file under a mode, by the type number of its file system.
pub fn prefer_mmap(magic: Option<u64>, mode: IoMode) -> (b: bool)
    ensures
        b == match mode {
            IoMode::Mmap => true,
            IoMode::Read => false,
            IoMode::Auto => !(magic matches Some(m) && is_network_magic(m)),
        },
{
    match mode {
        IoMode::Mmap => true,
        IoMode::Read => false,
        IoMode::Auto => !is_network_fs(magic),
    }
}

} // verus!
