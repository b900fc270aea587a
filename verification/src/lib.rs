//! Windows resource artifacts (`.res` streams and COFF objects) built from an
//! in-memory description of icons, version information and a manifest.
//!
//! The language of every resource is 0x0409 (English, US).

use vstd::prelude::*;
use crate::strings::{Entries, StringTable};

pub mod encoding;
pub mod binary;
pub mod res;
pub mod strings;
pub mod coff;
pub mod coff2;
pub mod builder;
pub mod laws;

pub use crate::builder::{ResourceBuilder, ResourceFile, ResourceFileKind};
pub use crate::coff::TargetType;

verus! {

/// The kind of a resource.
#[derive(Debug, Copy, Clone, PartialEq, Eq, Structural)]
pub enum ResourceType {
    /// The empty resource that opens a `.res` stream.
    Sentinel,
    Version,
    Icon,
    IconGroup,
    Manifest,
}

impl ResourceType {
    /// The numeric type identifier.
    pub open spec fn spec_id(self) -> u16 {
        match self {
            ResourceType::Sentinel => 0x0,
            ResourceType::Version => 0x10,
            ResourceType::Icon => 0x3,
            ResourceType::IconGroup => 0xE,
            ResourceType::Manifest => 0x18,
        }
    }

    /// The numeric type identifier.
    #[verifier::when_used_as_spec(spec_id)]
    pub fn id(self) -> (r: u16)
        ensures
            r == self.spec_id(),
    {
        match self {
            ResourceType::Sentinel => 0x0,
            ResourceType::Version => 0x10,
            ResourceType::Icon => 0x3,
            ResourceType::IconGroup => 0xE,
            ResourceType::Manifest => 0x18,
        }
    }

    /// The memory-flags word of a `.res` header.
    pub open spec fn spec_flags(self) -> u16 {
        match self {
            ResourceType::Sentinel => 0x0,
            ResourceType::Version => 0x0030,
            ResourceType::Icon => 0x1010,
            ResourceType::IconGroup => 0x1030,
            ResourceType::Manifest => 0x0030,
        }
    }

    /// The memory-flags word of a `.res` header: MOVEABLE is 0x0010, PURE
    /// 0x0020 and DISCARDABLE 0x1000.
    #[verifier::when_used_as_spec(spec_flags)]
    pub fn flags(self) -> (r: u16)
        ensures
            r == self.spec_flags(),
    {
        match self {
            ResourceType::Sentinel => 0x0,
            ResourceType::Version => 0x0030,
            ResourceType::Icon => 0x1010,
            ResourceType::IconGroup => 0x1030,
            ResourceType::Manifest => 0x0030,
        }
    }

    /// The language word of a `.res` header.
    pub open spec fn spec_language(self) -> u16 {
        match self {
            ResourceType::Sentinel => 0x0,
            _ => 0x0409,
        }
    }

    /// The language word of a `.res` header: en-US but for the sentinel.
    #[verifier::when_used_as_spec(spec_language)]
    pub fn language(self) -> (r: u16)
        ensures
            r == self.spec_language(),
    {
        match self {
            ResourceType::Sentinel => 0x0,
            _ => 0x0409,
        }
    }
}

/// The type of the file.
#[derive(Debug, Copy, Clone, PartialEq, Eq, Structural)]
pub enum FileType {
    Exe,
    Dll,
}

impl FileType {
    /// The `dwFileType` word.
    pub open spec fn spec_id(self) -> u32 {
        match self {
            FileType::Exe => 1,
            FileType::Dll => 2,
        }
    }

    /// The `dwFileType` word.
    #[verifier::when_used_as_spec(spec_id)]
    pub fn id(self) -> (r: u32)
        ensures
            r == self.spec_id(),
    {
        match self {
            FileType::Exe => 1,
            FileType::Dll => 2,
        }
    }
}

impl Default for FileType {
    fn default() -> (r: Self)
        ensures
            r == FileType::Exe,
    {
        FileType::Exe
    }
}

/// A version number.
#[derive(Debug, Copy, Clone, PartialEq, Eq, Structural)]
pub struct Version {
    pub major: u16,
    pub minor: u16,
    pub patch: u16,
    pub build: u16,
}

impl Version {
    /// The version `major.minor.patch.build`.
    pub fn new(major: u16, minor: u16, patch: u16, build: u16) -> (r: Self)
        ensures
            r == (Version { major, minor, patch, build }),
    {
        Self { major, minor, patch, build }
    }
}

impl Default for Version {
    fn default() -> (r: Self)
        ensures
            r == (Version { major: 0, minor: 0, patch: 0, build: 0 }),
    {
        Version { major: 0, minor: 0, patch: 0, build: 0 }
    }
}

/// Flags that indicate the file's status.
#[derive(Debug, Copy, Clone, PartialEq, Eq, Structural, Hash)]
pub enum FileFlag {
    /// The file contains debugging information or is compiled with debugging features enabled.
    Debug,
    /// The file has been modified and is not identical to the shipping file of the same version number.
    Patched,
    /// The file is a development version, not a commercially released product.
    Prerelease,
    /// The file was not built using standard release procedures.
    PrivateBuild,
    /// The file was built by its vendor using standard release procedures but is a variation of the normal file of the same version number.
    SpecialBuild,
}

impl FileFlag {
    /// The bit that stands for the flag in `dwFileFlags`.
    pub open spec fn spec_bit(self) -> u32 {
        match self {
            FileFlag::Debug => 0x01,
            FileFlag::Patched => 0x04,
            FileFlag::Prerelease => 0x02,
            FileFlag::PrivateBuild => 0x08,
            FileFlag::SpecialBuild => 0x20,
        }
    }

    /// The bit that stands for the flag in `dwFileFlags`.
    #[verifier::when_used_as_spec(spec_bit)]
    pub fn bit(self) -> (r: u32)
        ensures
            r == self.spec_bit(),
    {
        match self {
            FileFlag::Debug => 0x01,
            FileFlag::Patched => 0x04,
            FileFlag::Prerelease => 0x02,
            FileFlag::PrivateBuild => 0x08,
            FileFlag::SpecialBuild => 0x20,
        }
    }
}

/// The `dwFileFlags` word of a set of flags: the union of their bits.
pub open spec fn flags_word(flags: Set<FileFlag>) -> u32 {
    ((if flags.contains(FileFlag::Debug) {
        0x01u32
    } else {
        0
    }) + (if flags.contains(FileFlag::Patched) {
        0x04u32
    } else {
        0
    }) + (if flags.contains(FileFlag::Prerelease) {
        0x02u32
    } else {
        0
    }) + (if flags.contains(FileFlag::PrivateBuild) {
        0x08u32
    } else {
        0
    }) + (if flags.contains(FileFlag::SpecialBuild) {
        0x20u32
    } else {
        0
    })) as u32
}

/// A set of file flags.
#[derive(Debug, Copy, Clone, PartialEq, Eq, Structural)]
pub struct FileFlags {
    pub debug: bool,
    pub patched: bool,
    pub prerelease: bool,
    pub private_build: bool,
    pub special_build: bool,
}

impl View for FileFlags {
    type V = Set<FileFlag>;

    open spec fn view(&self) -> Set<FileFlag> {
        Set::new(
            |f: FileFlag|
                match f {
                    FileFlag::Debug => self.debug,
                    FileFlag::Patched => self.patched,
                    FileFlag::Prerelease => self.prerelease,
                    FileFlag::PrivateBuild => self.private_build,
                    FileFlag::SpecialBuild => self.special_build,
                },
        )
    }
}

impl FileFlags {
    /// The empty set.
    pub fn new() -> (r: Self)
        ensures
            r@ == Set::<FileFlag>::empty(),
    {
        let r = FileFlags {
            debug: false,
            patched: false,
            prerelease: false,
            private_build: false,
            special_build: false,
        };
        assert(r@ =~= Set::<FileFlag>::empty());
        r
    }

    /// Adds `flag` to the set.
    pub fn insert(&mut self, flag: FileFlag)
        ensures
            final(self)@ == old(self)@.insert(flag),
    {
        match flag {
            FileFlag::Debug => {
                self.debug = true;
            },
            FileFlag::Patched => {
                self.patched = true;
            },
            FileFlag::Prerelease => {
                self.prerelease = true;
            },
            FileFlag::PrivateBuild => {
                self.private_build = true;
            },
            FileFlag::SpecialBuild => {
                self.special_build = true;
            },
        }
        assert(self@ =~= old(self)@.insert(flag));
    }

    /// Whether `flag` is in the set.
    pub fn contains(&self, flag: FileFlag) -> (r: bool)
        ensures
            r == self@.contains(flag),
    {
        match flag {
            FileFlag::Debug => self.debug,
            FileFlag::Patched => self.patched,
            FileFlag::Prerelease => self.prerelease,
            FileFlag::PrivateBuild => self.private_build,
            FileFlag::SpecialBuild => self.special_build,
        }
    }

    /// The `dwFileFlags` word: the union of the bits of the flags in the set.
    pub fn word(&self) -> (r: u32)
        ensures
            r == flags_word(self@),
    {
        let mut r: u32 = 0;
        if self.debug {
            r = r + FileFlag::Debug.bit();
        }
        if self.patched {
            r = r + FileFlag::Patched.bit();
        }
        if self.prerelease {
            r = r + FileFlag::Prerelease.bit();
        }
        if self.private_build {
            r = r + FileFlag::PrivateBuild.bit();
        }
        if self.special_build {
            r = r + FileFlag::SpecialBuild.bit();
        }
        r
    }
}

/// The version information of a file.
#[derive(Debug, Clone)]
pub struct VersionInfo {
    pub file_version: Version,
    pub product_version: Version,
    pub file_type: FileType,
    pub flags: FileFlags,
    pub strings: StringTable,
}

/// Version information as plain values.
pub struct VersionInfoView {
    pub file_version: Version,
    pub product_version: Version,
    pub file_type: FileType,
    pub flags: Set<FileFlag>,
    pub strings: Entries,
}

impl View for VersionInfo {
    type V = VersionInfoView;

    open spec fn view(&self) -> VersionInfoView {
        VersionInfoView {
            file_version: self.file_version,
            product_version: self.product_version,
            file_type: self.file_type,
            flags: self.flags@,
            strings: self.strings@,
        }
    }
}

impl Default for VersionInfo {
    /// Versions 0.0.0.0, an executable, no flags, no strings.
    fn default() -> (r: Self)
        ensures
            r.strings.wf(),
            r@ == (VersionInfoView {
                file_version: Version { major: 0, minor: 0, patch: 0, build: 0 },
                product_version: Version { major: 0, minor: 0, patch: 0, build: 0 },
                file_type: FileType::Exe,
                flags: Set::empty(),
                strings: Entries::empty(),
            }),
    {
        VersionInfo {
            file_version: Version::default(),
            product_version: Version::default(),
            file_type: FileType::default(),
            flags: FileFlags::new(),
            strings: StringTable::new(),
        }
    }
}

/// An Icon resource: the bytes of a PNG file.
#[derive(Clone, PartialEq, Eq)]
pub struct Icon(pub Vec<u8>);

impl View for Icon {
    type V = Seq<u8>;

    open spec fn view(&self) -> Seq<u8> {
        self.0@
    }
}

/// Whether `data` opens as a PNG file with 32 bits per pixel: the PNG
/// signature, an `IHDR` chunk, bit depth 8 and colour type 6 (RGBA).
pub open spec fn is_rgba_png(data: Seq<u8>) -> bool {
    &&& data.len() >= 26
    &&& data.subrange(0, 8) == seq![137u8, 80, 78, 71, 13, 10, 26, 10]
    &&& data.subrange(12, 16) == seq![73u8, 72, 68, 82]
    &&& data[24] == 8
    &&& data[25] == 6
}

impl Icon {
    /// Whether `data` is accepted by [`Icon::from_png_bytes`].
    pub fn is_png(data: &[u8]) -> (r: bool)
        ensures
            r == is_rgba_png(data@),
    {
        if data.len() < 26 {
            return false;
        }
        let sig = data[0] == 137 && data[1] == 80 && data[2] == 78 && data[3] == 71 && data[4]
            == 13 && data[5] == 10 && data[6] == 26 && data[7] == 10;
        let ihdr = data[12] == 73 && data[13] == 72 && data[14] == 68 && data[15] == 82;
        proof {
            let a = data@.subrange(0, 8);
            let b = seq![137u8, 80, 78, 71, 13, 10, 26, 10];
            if sig {
                assert(a =~= b);
            } else {
                assert(a[0] == data@[0] && a[1] == data@[1] && a[2] == data@[2] && a[3] == data@[3]
                    && a[4] == data@[4] && a[5] == data@[5] && a[6] == data@[6] && a[7]
                    == data@[7]);
                assert(b[0] == 137 && b[1] == 80 && b[2] == 78 && b[3] == 71 && b[4] == 13 && b[5]
                    == 10 && b[6] == 26 && b[7] == 10);
            }
            let c = data@.subrange(12, 16);
            let d = seq![73u8, 72, 68, 82];
            if ihdr {
                assert(c =~= d);
            } else {
                assert(c[0] == data@[12] && c[1] == data@[13] && c[2] == data@[14] && c[3]
                    == data@[15]);
                assert(d[0] == 73 && d[1] == 72 && d[2] == 68 && d[3] == 82);
            }
        }
        sig && ihdr && data[24] == 8 && data[25] == 6
    }

    /// Create an icon from a PNG file. The PNG must contain 32bpp RGBA data.
    pub fn from_png_bytes(data: Vec<u8>) -> (r: Self)
        requires
            is_rgba_png(data@),
        ensures
            r@ == data@,
    {
        Icon(data)
    }
}

/// One entry of an icon group: the Icon resource it names and that icon's size.
#[derive(Debug, Copy, Clone, PartialEq, Eq, Structural)]
pub struct IconGroupEntry {
    pub icon_id: u16,
    pub icon_size: usize,
}

} // verus!
