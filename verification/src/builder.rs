//! The resources of one file, gathered step by step and compiled to a
//! `.res` stream or to a COFF object.

use vstd::prelude::*;
use vstd::utf8::encode_utf8;
use vstd::string::StringSliceAdditionalSpecFns;
use crate::binary::{
    BinaryWritable,
    version_info_bytes,
    version_record,
    icon_group_bytes,
    entries_fit,
    lemma_icon_entries_len,
};
use crate::coff::{TargetType, current_timestamp};
use crate::coff2::CoffWriter2;
use crate::coff2::object::{ObjectView, empty_object};
use crate::res::{ResWriter, ResRecord, res_stream, res_record};
use crate::strings::{Entries, inserted, rank, has_key};
use crate::{
    FileFlag,
    FileType,
    Icon,
    IconGroupEntry,
    ResourceType,
    Version,
    VersionInfo,
    VersionInfoView,
};

verus! {

/// The first identifier of the Icon resources; the icon groups have the
/// identifiers that the caller gives.
pub const ICON_BASE_ID: u16 = 128;

/// Which format a compiled file has.
#[derive(Debug, Copy, Clone, PartialEq, Eq, Structural)]
pub enum ResourceFileKind {
    Coff,
    Res,
}

/// A compiled file.
#[must_use]
#[derive(Clone, PartialEq, Eq)]
pub struct ResourceFile {
    pub data: Vec<u8>,
    pub kind: ResourceFileKind,
}

/// Gathers the resources of one file.
#[derive(Clone)]
pub struct ResourceBuilder {
    pub version: VersionInfo,
    pub icon_groups: Vec<(u16, [IconGroupEntry; 1])>,
    pub icons: Vec<(u16, Icon)>,
    pub manifest: Option<String>,
}

/// What a builder with nothing in it has gathered: versions 0.0.0.0, an
/// executable, no flags, no strings, no icons, no manifest.
pub open spec fn empty_builder() -> ResourceBuilderView {
    ResourceBuilderView {
        version: VersionInfoView {
            file_version: Version { major: 0, minor: 0, patch: 0, build: 0 },
            product_version: Version { major: 0, minor: 0, patch: 0, build: 0 },
            file_type: FileType::Exe,
            flags: Set::empty(),
            strings: Entries::empty(),
        },
        icon_groups: Seq::empty(),
        icons: Seq::empty(),
        manifest: None,
    }
}

/// The strings of a package: its version as the version of the file and of
/// the product, its name, and its description, for which the name stands in
/// where there is none.
pub open spec fn metadata_strings(
    version: Seq<char>,
    name: Seq<char>,
    description: Seq<char>,
) -> Entries {
    inserted(
        inserted(
            inserted(
                inserted(Entries::empty(), "FileVersion"@, version),
                "ProductVersion"@,
                version,
            ),
            "ProductName"@,
            name,
        ),
        "FileDescription"@,
        if description.len() == 0 {
            name
        } else {
            description
        },
    )
}

/// One part of a version number, where it could be read, and else zero.
pub open spec fn version_part(part: Option<u16>) -> u16 {
    match part {
        Some(v) => v,
        None => 0,
    }
}

/// What a builder has gathered, as plain values.
pub struct ResourceBuilderView {
    pub version: VersionInfoView,
    /// The icon groups in the order they were added: identifier and entry.
    pub icon_groups: Seq<(u16, IconGroupEntry)>,
    /// The icons in the order they were added: identifier and bytes.
    pub icons: Seq<(u16, Seq<u8>)>,
    pub manifest: Option<Seq<char>>,
}

impl View for ResourceBuilder {
    type V = ResourceBuilderView;

    open spec fn view(&self) -> ResourceBuilderView {
        ResourceBuilderView {
            version: self.version@,
            icon_groups: Seq::new(
                self.icon_groups@.len(),
                |i: int| (self.icon_groups@[i].0, self.icon_groups@[i].1@[0]),
            ),
            icons: Seq::new(self.icons@.len(), |i: int| (self.icons@[i].0, self.icons@[i].1@)),
            manifest: match self.manifest {
                Some(m) => Some(m@),
                None => None,
            },
        }
    }
}

impl ResourceBuilderView {
    /// Whether a group has the identifier `id`.
    pub open spec fn has_group(self, id: u16) -> bool {
        exists|i: int| 0 <= i < self.icon_groups.len() && (#[trigger] self.icon_groups[i]).0 == id
    }

    /// Whether the icons are numbered from [`ICON_BASE_ID`] on, each group
    /// names the icon that was added with it and holds that icon's size, and
    /// no two groups have one identifier.
    #[verifier::opaque]
    pub open spec fn wf(self) -> bool {
        &&& self.icons.len() == self.icon_groups.len()
        &&& self.icons.len() + ICON_BASE_ID <= 0x1_0000
        &&& forall|i: int|
            0 <= i < self.icons.len() ==> (#[trigger] self.icons[i]).0 == ICON_BASE_ID + i
        &&& forall|i: int|
            0 <= i < self.icon_groups.len() ==> (#[trigger] self.icon_groups[i]).1
                == (IconGroupEntry {
                icon_id: (ICON_BASE_ID + i) as u16,
                icon_size: self.icons[i].1.len() as usize,
            })
        &&& forall|i: int, j: int|
            0 <= i < j < self.icon_groups.len() ==> (#[trigger] self.icon_groups[i]).0 != (
            #[trigger] self.icon_groups[j]).0
    }
}

impl ResourceBuilderView {
    /// The version resource, whose identifier is 1.
    pub open spec fn version_record(self) -> ResRecord {
        ResRecord {
            ty: ResourceType::Version,
            name: 1,
            payload: version_info_bytes(self.version),
        }
    }

    /// The Icon resources, in the order the icons were added.
    pub open spec fn icon_records(self) -> Seq<ResRecord> {
        Seq::new(
            self.icons.len(),
            |i: int|
                ResRecord {
                    ty: ResourceType::Icon,
                    name: self.icons[i].0,
                    payload: self.icons[i].1,
                },
        )
    }

    /// The icon groups, in the order the icons were added.
    pub open spec fn group_records(self) -> Seq<ResRecord> {
        Seq::new(
            self.icon_groups.len(),
            |i: int|
                ResRecord {
                    ty: ResourceType::IconGroup,
                    name: self.icon_groups[i].0,
                    payload: icon_group_bytes(seq![self.icon_groups[i].1]),
                },
        )
    }

    /// The manifest, whose identifier is 1, where one is set.
    pub open spec fn manifest_records(self) -> Seq<ResRecord> {
        match self.manifest {
            Some(m) => seq![
                ResRecord { ty: ResourceType::Manifest, name: 1, payload: encode_utf8(m) },
            ],
            None => Seq::empty(),
        }
    }

    /// The resources of the file: the version, every icon, every icon
    /// group, and the manifest where one is set.
    pub open spec fn resources(self) -> Seq<ResRecord> {
        seq![self.version_record()] + self.icon_records() + self.group_records()
            + self.manifest_records()
    }

    /// The records of the `.res` stream: the empty record that opens it, then the resources.
    pub open spec fn records(self) -> Seq<ResRecord> {
        seq![ResRecord { ty: ResourceType::Sentinel, name: 0, payload: Seq::empty() }]
            + self.resources()
    }

    /// Whether every length fits the field that holds it: 16 bits for the
    /// `VS_VERSIONINFO` record, 32 bits for each icon and for the manifest.
    pub open spec fn fits(self) -> bool {
        &&& version_record(self.version).len() <= 0xFFFF
        &&& forall|i: int| 0 <= i < self.icons.len() ==> (#[trigger] self.icons[i]).1.len() <= u32::MAX
        &&& self.manifest is Some ==> encode_utf8(self.manifest->0).len() <= u32::MAX
    }

    /// The `.res` stream of the file.
    pub open spec fn res_image(self) -> Seq<u8> {
        res_stream(self.records())
    }
}

/// The object that holds the first `k` of the resources `rs`, added in their order.
pub open spec fn object_with(target: TargetType, rs: Seq<ResRecord>, k: nat) -> ObjectView
    decreases k,
{
    if k == 0 {
        empty_object(target)
    } else {
        object_with(target, rs, (k - 1) as nat).added(
            rs[k - 1].ty,
            rs[k - 1].name as u32,
            rs[k - 1].payload,
        )
    }
}

impl ResourceBuilderView {
    /// The object that holds the resources of the file.
    pub open spec fn object(self, target: TargetType) -> ObjectView {
        object_with(target, self.resources(), self.resources().len())
    }

    /// Whether each of the first `n` resources can be added to the object of
    /// those before it.
    #[verifier::opaque]
    pub open spec fn addable(self, target: TargetType, n: nat) -> bool {
        forall|k: int|
            0 <= k < n ==> (#[trigger] object_with(target, self.resources(), k as nat)).can_add(
                self.resources()[k].payload.len(),
            )
    }

    /// Whether the file can be compiled to an object: the `VS_VERSIONINFO`
    /// record fits 16 bits, each resource can be added after those before
    /// it, and the object can be written.
    #[verifier::opaque]
    pub open spec fn coff_fits(self, target: TargetType) -> bool {
        &&& version_record(self.version).len() <= 0xFFFF
        &&& self.addable(target, self.resources().len())
        &&& self.object(target).writable()
    }
}

/// The stream of the first `k + 1` records of a list is the stream of the
/// first `k` with record `k` appended.
pub proof fn lemma_res_stream_step(records: Seq<ResRecord>, k: int)
    requires
        0 <= k < records.len(),
    ensures
        res_stream(records.take(k + 1)) == res_stream(records.take(k)) + res_record(
            res_stream(records.take(k)).len(),
            records[k].ty,
            records[k].name,
            records[k].payload,
        ),
{
    assert(records.take(k + 1).drop_last() =~= records.take(k));
}

impl ResourceBuilder {
    /// Compiles the resources to a `.res` stream: the empty record, the
    /// version, every icon, every icon group, and the manifest where one is set.
    #[verifier::rlimit(40)]
    pub fn compile_to_res(&self) -> (r: ResourceFile)
        requires
            self.wf(),
            self@.fits(),
        ensures
            r.kind == ResourceFileKind::Res,
            r.data@ == self@.res_image(),
    {
        let ghost b = self@;
        let ghost rs = b.records();
        let n = self.icons.len();
        let m = self.icon_groups.len();
        let mut res = ResWriter::default();
        proof {
            lemma_resources(b);
            assert(rs.take(0) =~= Seq::<ResRecord>::empty());
            lemma_res_stream_step(rs, 0);
            lemma_res_stream_step(rs, 1);
            assert(rs[1] == b.resources()[0]);
            assert(Seq::<u8>::empty() + res_record(0, rs[0].ty, rs[0].name, rs[0].payload)
                =~= res_record(0, rs[0].ty, rs[0].name, rs[0].payload));
        }
        res.write_empty();
        res.write_version(&self.version);

        let mut i: usize = 0;
        while i < n
            invariant
                i <= n,
                n == self.icons@.len(),
                m == self.icon_groups@.len(),
                b == self@,
                rs == b.records(),
                b.fits(),
                res@ == res_stream(rs.take(2 + i)),
            decreases n - i,
        {
            proof {
                lemma_resources(b);
                lemma_icon_resource(b, i as int);
                lemma_res_stream_step(rs, 2 + i);
                assert(b.icons[i as int].1 == self.icons@[i as int].1@);
                assert(b.icons[i as int].1.len() <= u32::MAX);
            }
            res.write_icon(self.icons[i].0, &self.icons[i].1);
            i += 1;
        }

        let mut j: usize = 0;
        while j < m
            invariant
                j <= m,
                n == self.icons@.len(),
                m == self.icon_groups@.len(),
                b == self@,
                rs == b.records(),
                b.fits(),
                b.wf(),
                res@ == res_stream(rs.take(2 + n + j)),
            decreases m - j,
        {
            proof {
                lemma_resources(b);
                lemma_group_resource(b, j as int);
                lemma_wf_counts(b);
                lemma_res_stream_step(rs, 2 + n + j);
                assert(self.icon_groups@[j as int].1@ =~= seq![b.icon_groups[j as int].1]);
                assert(b.icons[j as int].1.len() <= u32::MAX);
                lemma_group_fits(b, j as int);
            }
            res.write_icon_group(self.icon_groups[j].0, self.icon_groups[j].1.as_slice());
            j += 1;
        }

        match &self.manifest {
            Some(manifest) => {
                proof {
                    lemma_resources(b);
                    lemma_manifest_resource(b);
                    lemma_res_stream_step(rs, 2 + n + m);
                    assert(rs.take(3 + n + m) =~= rs);
                }
                res.write_resource(ResourceType::Manifest, 1, manifest.as_str().as_bytes());
            },
            None => {
                proof {
                    lemma_resources(b);
                    assert(rs.take(2 + n + m) =~= rs);
                }
            },
        }
        ResourceFile { data: res.finish(), kind: ResourceFileKind::Res }
    }
}

impl ResourceBuilder {
    /// Whether the file can be compiled to a `.res` stream: [`ResourceBuilderView::fits`].
    pub fn fits_res(&self) -> (r: bool)
        ensures
            r == self@.fits(),
    {
        let ghost b = self@;
        if self.version.payload_len().is_none() {
            return false;
        }
        let n = self.icons.len();
        let mut i: usize = 0;
        while i < n
            invariant
                i <= n,
                n == self.icons@.len(),
                b == self@,
                forall|k: int| 0 <= k < i ==> (#[trigger] b.icons[k]).1.len() <= u32::MAX,
            decreases n - i,
        {
            if self.icons[i].1.0.len() > 0xFFFF_FFFF {
                assert(b.icons[i as int].1.len() > u32::MAX);
                return false;
            }
            i += 1;
        }
        match &self.manifest {
            Some(manifest) => manifest.as_str().as_bytes().len() <= 0xFFFF_FFFF,
            None => true,
        }
    }

    /// Compiles the resources to a `.res` stream where every length fits
    /// the field that holds it, as [`ResourceBuilder::compile_to_res`] does.
    pub fn try_compile_to_res(&self) -> (r: Option<ResourceFile>)
        requires
            self.wf(),
        ensures
            r is Some == self@.fits(),
            r is Some ==> r->0.kind == ResourceFileKind::Res && r->0.data@ == self@.res_image(),
    {
        if self.fits_res() {
            Some(self.compile_to_res())
        } else {
            None
        }
    }

    /// Adds icon group `j` to the object of the resources before it, where
    /// there is room for it.
    fn add_group_at(&self, writer: &mut CoffWriter2, j: usize, Ghost(target): Ghost<TargetType>) -> (ok:
        bool)
        requires
            self.wf(),
            j < self.icon_groups@.len(),
            self@.addable(target, (1 + self.icons@.len() + j) as nat),
            old(writer).wf(),
            old(writer)@ == object_with(
                target,
                self@.resources(),
                (1 + self.icons@.len() + j) as nat,
            ),
        ensures
            !ok ==> !self@.addable(target, self@.resources().len()),
            ok ==> final(writer).wf() && self@.addable(
                target,
                (1 + self.icons@.len() + j + 1) as nat,
            ) && final(writer)@ == object_with(
                target,
                self@.resources(),
                (1 + self.icons@.len() + j + 1) as nat,
            ),
    {
        let ghost b = self@;
        let ghost k = 1 + self.icons@.len() + j;
        proof {
            lemma_group_step(b, target, j as int);
            assert(b.icon_groups[j as int] == (
                self.icon_groups@[j as int].0,
                self.icon_groups@[j as int].1@[0],
            ));
        }
        let ok = add_group_checked(writer, self.icon_groups[j].0, &self.icon_groups[j].1);
        proof {
            if ok {
                lemma_addable_step(b, target, k);
            } else {
                lemma_not_addable(b, target, k);
            }
        }
        ok
    }

    /// The object of the resources, where each of them can be added.
    #[verifier::rlimit(40)]
    fn build_object(&self, target: TargetType) -> (r: Option<CoffWriter2>)
        requires
            self.wf(),
        ensures
            r is Some == (version_record(self@.version).len() <= 0xFFFF && self@.addable(
                target,
                self@.resources().len(),
            )),
            r is Some ==> r->0.wf() && r->0@ == self@.object(target),
    {
        let ghost b = self@;
        let ghost rs = b.resources();
        let n = self.icons.len();
        let m = self.icon_groups.len();
        let mut writer = CoffWriter2::new(target);
        proof {
            lemma_resources(b);
        }
        let version_len = match self.version.payload_len() {
            Some(len) => len,
            None => {
                return None;
            },
        };
        if !writer.can_add(version_len) {
            proof {
                lemma_not_addable(b, target, 0);
            }
            return None;
        }
        writer.add_resource(ResourceType::Version, 1, &self.version);
        proof {
            lemma_addable_none(b, target);
            lemma_addable_step(b, target, 0);
        }

        let mut i: usize = 0;
        while i < n
            invariant
                i <= n,
                n == self.icons@.len(),
                m == self.icon_groups@.len(),
                b == self@,
                b.wf(),
                rs == b.resources(),
                version_record(b.version).len() <= 0xFFFF,
                b.addable(target, (1 + i) as nat),
                writer.wf(),
                writer@ == object_with(target, rs, (1 + i) as nat),
            decreases n - i,
        {
            proof {
                lemma_icon_resource(b, i as int);
                assert(b.icons[i as int].1 == self.icons@[i as int].1@);
            }
            if !writer.can_add(self.icons[i].1.0.len()) {
                proof {
                    lemma_not_addable(b, target, 1 + i);
                }
                return None;
            }
            writer.add_resource(ResourceType::Icon, self.icons[i].0 as u32, &self.icons[i].1);
            proof {
                lemma_addable_step(b, target, 1 + i);
            }
            i += 1;
        }

        let mut j: usize = 0;
        while j < m
            invariant
                j <= m,
                n == self.icons@.len(),
                m == self.icon_groups@.len(),
                self.wf(),
                b == self@,
                rs == b.resources(),
                b.addable(target, (1 + n + j) as nat),
                writer.wf(),
                writer@ == object_with(target, rs, (1 + n + j) as nat),
            decreases m - j,
        {
            if !self.add_group_at(&mut writer, j, Ghost(target)) {
                return None;
            }
            j += 1;
        }

        match &self.manifest {
            Some(manifest) => {
                proof {
                    lemma_resources(b);
                    lemma_manifest_resource(b);
                }
                if !writer.can_add(manifest.as_str().as_bytes().len()) {
                    proof {
                        lemma_not_addable(b, target, 1 + n + m);
                    }
                    return None;
                }
                writer.add_resource(ResourceType::Manifest, 1, manifest.as_str().as_bytes());
                proof {
                    lemma_addable_step(b, target, 1 + n + m);
                }
            },
            None => {
                proof {
                    lemma_resources(b);
                }
            },
        }
        Some(writer)
    }

    /// Compiles the resources to a COFF object for `target`, with
    /// `timestamp` in the file header, where the file can be compiled to one;
    /// as [`ResourceBuilder::compile_to_coff_at`] does.
    pub fn try_compile_to_coff_at(&self, target: TargetType, timestamp: u32) -> (r: Option<
        ResourceFile,
    >)
        requires
            self.wf(),
        ensures
            r is Some == self@.coff_fits(target),
            r is Some ==> r->0.kind == ResourceFileKind::Coff && r->0.data@ == self@.object(
                target,
            ).image(timestamp),
    {
        proof {
            reveal(ResourceBuilderView::coff_fits);
        }
        match self.build_object(target) {
            Some(writer) => {
                if writer.can_finish() {
                    Some(
                        ResourceFile {
                            data: writer.finish_at(timestamp),
                            kind: ResourceFileKind::Coff,
                        },
                    )
                } else {
                    None
                }
            },
            None => None,
        }
    }

    /// Compiles the resources to a COFF object for `target`, with the time
    /// of the system clock in the file header, where the file can be compiled to one.
    pub fn try_compile_to_coff(&self, target: TargetType) -> (r: Option<ResourceFile>)
        requires
            self.wf(),
        ensures
            r is Some == self@.coff_fits(target),
            r is Some ==> r->0.kind == ResourceFileKind::Coff && exists|timestamp: u32|
                r->0.data@ == self@.object(target).image(timestamp),
    {
        self.try_compile_to_coff_at(target, current_timestamp())
    }

    /// Compiles the resources to a COFF object for `target`, with the time
    /// of the system clock in the file header.
    pub fn compile_to_coff(&self, target: TargetType) -> (r: ResourceFile)
        requires
            self.wf(),
            self@.coff_fits(target),
        ensures
            r.kind == ResourceFileKind::Coff,
            exists|timestamp: u32| r.data@ == self@.object(target).image(timestamp),
    {
        self.compile_to_coff_at(target, current_timestamp())
    }

    /// Compiles the resources to a COFF object for `target`, with
    /// `timestamp` in the file header: the version, every icon, every icon
    /// group, and the manifest where one is set.
    #[verifier::rlimit(40)]
    pub fn compile_to_coff_at(&self, target: TargetType, timestamp: u32) -> (r: ResourceFile)
        requires
            self.wf(),
            self@.coff_fits(target),
        ensures
            r.kind == ResourceFileKind::Coff,
            r.data@ == self@.object(target).image(timestamp),
    {
        let ghost b = self@;
        let ghost rs = b.resources();
        let n = self.icons.len();
        let m = self.icon_groups.len();
        let mut writer = CoffWriter2::new(target);
        proof {
            lemma_resources(b);
            lemma_next_resource(b, target, 0);
            lemma_coff_fits(b, target);
        }
        writer.add_resource(ResourceType::Version, 1, &self.version);

        let mut i: usize = 0;
        while i < n
            invariant
                i <= n,
                n == self.icons@.len(),
                m == self.icon_groups@.len(),
                b == self@,
                b.wf(),
                rs == b.resources(),
                b.coff_fits(target),
                writer.wf(),
                writer@ == object_with(target, rs, (1 + i) as nat),
            decreases n - i,
        {
            proof {
                lemma_icon_resource(b, i as int);
                lemma_next_resource(b, target, 1 + i);
                assert(b.icons[i as int].1 == self.icons@[i as int].1@);
            }
            writer.add_resource(ResourceType::Icon, self.icons[i].0 as u32, &self.icons[i].1);
            i += 1;
        }

        let mut j: usize = 0;
        while j < m
            invariant
                j <= m,
                n == self.icons@.len(),
                m == self.icon_groups@.len(),
                b == self@,
                b.wf(),
                rs == b.resources(),
                b.coff_fits(target),
                writer.wf(),
                writer@ == object_with(target, rs, (1 + n + j) as nat),
            decreases m - j,
        {
            proof {
                lemma_group_resource(b, j as int);
                lemma_wf_counts(b);
                lemma_icon_resource(b, j as int);
                lemma_next_resource(b, target, 1 + n + j);
                lemma_next_resource(b, target, 1 + j);
                lemma_group_fits(b, j as int);
            }
            add_group(&mut writer, self.icon_groups[j].0, &self.icon_groups[j].1);
            j += 1;
        }

        match &self.manifest {
            Some(manifest) => {
                proof {
                    lemma_resources(b);
                    lemma_manifest_resource(b);
                    lemma_next_resource(b, target, 1 + n + m);
                }
                writer.add_resource(ResourceType::Manifest, 1, manifest.as_str().as_bytes());
            },
            None => {
                proof {
                    lemma_resources(b);
                }
            },
        }
        ResourceFile { data: writer.finish_at(timestamp), kind: ResourceFileKind::Coff }
    }
}

/// The resources of a file by their places: the version first, then the
/// icons, the icon groups, and the manifest last where one is set.
pub proof fn lemma_resources(b: ResourceBuilderView)
    ensures
        b.resources().len() == 1 + b.icons.len() + b.icon_groups.len() + (if b.manifest is Some {
            1nat
        } else {
            0nat
        }),
        b.resources()[0] == b.version_record(),
        b.records().len() == 1 + b.resources().len(),
        b.records()[0] == (ResRecord {
            ty: ResourceType::Sentinel,
            name: 0,
            payload: Seq::empty(),
        }),
{
}

/// The place of an icon among the resources of a file.
pub proof fn lemma_icon_resource(b: ResourceBuilderView, i: int)
    requires
        0 <= i < b.icons.len(),
    ensures
        1 + i < b.resources().len(),
        b.resources()[1 + i] == (ResRecord {
            ty: ResourceType::Icon,
            name: b.icons[i].0,
            payload: b.icons[i].1,
        }),
        b.records()[2 + i] == b.resources()[1 + i],
{
}

/// The place of an icon group among the resources of a file.
pub proof fn lemma_group_resource(b: ResourceBuilderView, j: int)
    requires
        0 <= j < b.icon_groups.len(),
    ensures
        1 + b.icons.len() + j < b.resources().len(),
        b.resources()[1 + b.icons.len() + j] == (ResRecord {
            ty: ResourceType::IconGroup,
            name: b.icon_groups[j].0,
            payload: icon_group_bytes(seq![b.icon_groups[j].1]),
        }),
        b.records()[2 + b.icons.len() + j] == b.resources()[1 + b.icons.len() + j],
        icon_group_bytes(seq![b.icon_groups[j].1]).len() == 20,
{
    lemma_icon_entries_len(seq![b.icon_groups[j].1]);
}

/// The place of the manifest among the resources of a file.
pub proof fn lemma_manifest_resource(b: ResourceBuilderView)
    requires
        b.manifest is Some,
    ensures
        b.resources().len() == 2 + b.icons.len() + b.icon_groups.len(),
        b.resources()[(1 + b.icons.len() + b.icon_groups.len()) as int] == (ResRecord {
            ty: ResourceType::Manifest,
            name: 1,
            payload: encode_utf8(b.manifest->0),
        }),
        b.records()[(2 + b.icons.len() + b.icon_groups.len()) as int] == b.resources()[(1
            + b.icons.len() + b.icon_groups.len()) as int],
{
}

/// The group of an icon whose size fits 32 bits can be written.
pub proof fn lemma_group_fits(b: ResourceBuilderView, j: int)
    requires
        b.wf(),
        0 <= j < b.icons.len(),
        b.icons[j].1.len() <= u32::MAX,
    ensures
        entries_fit(seq![b.icon_groups[j].1]),
{
    lemma_wf_icon(b, j);
}

/// What holds of the icons of a well-formed file: there are as many
/// groups as icons, and the identifiers of the icons fit 16 bits.
pub proof fn lemma_wf_counts(b: ResourceBuilderView)
    requires
        b.wf(),
    ensures
        b.icons.len() == b.icon_groups.len(),
        b.icons.len() + ICON_BASE_ID <= 0x1_0000,
{
    reveal(ResourceBuilderView::wf);
}

/// What holds of icon `i` of a well-formed file: its identifier counts
/// from [`ICON_BASE_ID`], and group `i` names it and holds its size.
pub proof fn lemma_wf_icon(b: ResourceBuilderView, i: int)
    requires
        b.wf(),
        0 <= i < b.icons.len(),
    ensures
        i < b.icon_groups.len(),
        b.icons[i].0 == ICON_BASE_ID + i,
        b.icon_groups[i].1 == (IconGroupEntry {
            icon_id: (ICON_BASE_ID + i) as u16,
            icon_size: b.icons[i].1.len() as usize,
        }),
{
    reveal(ResourceBuilderView::wf);
}

/// No two groups of a well-formed file have one identifier.
pub proof fn lemma_wf_groups_distinct(b: ResourceBuilderView, i: int, j: int)
    requires
        b.wf(),
        0 <= i < j < b.icon_groups.len(),
    ensures
        b.icon_groups[i].0 != b.icon_groups[j].0,
{
    reveal(ResourceBuilderView::wf);
}

/// In a file that can be compiled to an object, resource `k` can be added
/// to the object of those before it.
pub proof fn lemma_next_resource(b: ResourceBuilderView, target: TargetType, k: int)
    requires
        b.coff_fits(target),
        0 <= k < b.resources().len(),
    ensures
        object_with(target, b.resources(), k as nat).can_add(b.resources()[k].payload.len()),
        object_with(target, b.resources(), (k + 1) as nat) == object_with(
            target,
            b.resources(),
            k as nat,
        ).added(b.resources()[k].ty, b.resources()[k].name as u32, b.resources()[k].payload),
{
    reveal(ResourceBuilderView::coff_fits);
    reveal(ResourceBuilderView::addable);
}

/// Adds an icon group of one entry to an object.
fn add_group(writer: &mut CoffWriter2, id: u16, entries: &[IconGroupEntry; 1])
    requires
        old(writer).wf(),
        entries_fit(seq![entries@[0]]),
        old(writer)@.can_add(20),
    ensures
        final(writer).wf(),
        final(writer)@ == old(writer)@.added(
            ResourceType::IconGroup,
            id as u32,
            icon_group_bytes(seq![entries@[0]]),
        ),
{
    proof {
        assert(entries@ =~= seq![entries@[0]]);
        lemma_icon_entries_len(entries@);
    }
    writer.add_resource(ResourceType::IconGroup, id as u32, entries.as_slice());
}

/// Adds an icon group of one entry to an object that has room for it.
fn add_group_checked(writer: &mut CoffWriter2, id: u16, entries: &[IconGroupEntry; 1]) -> (ok:
    bool)
    requires
        old(writer).wf(),
        entries_fit(seq![entries@[0]]),
    ensures
        ok == old(writer)@.can_add(20),
        ok ==> final(writer).wf() && final(writer)@ == old(writer)@.added(
            ResourceType::IconGroup,
            id as u32,
            icon_group_bytes(seq![entries@[0]]),
        ),
        !ok ==> *final(writer) == *old(writer),
{
    if writer.can_add(20) {
        add_group(writer, id, entries);
        true
    } else {
        false
    }
}

/// What adding icon group `j` of a well-formed file takes, where the
/// resources before it can be added: its place among the resources, its
/// payload of twenty bytes, and an entry whose sizes fit.
pub proof fn lemma_group_step(b: ResourceBuilderView, target: TargetType, j: int)
    requires
        b.wf(),
        0 <= j < b.icon_groups.len(),
        b.addable(target, (1 + b.icons.len() + j) as nat),
    ensures
        1 + b.icons.len() + j < b.resources().len(),
        b.resources()[1 + b.icons.len() + j] == (ResRecord {
            ty: ResourceType::IconGroup,
            name: b.icon_groups[j].0,
            payload: icon_group_bytes(seq![b.icon_groups[j].1]),
        }),
        icon_group_bytes(seq![b.icon_groups[j].1]).len() == 20,
        entries_fit(seq![b.icon_groups[j].1]),
{
    lemma_group_resource(b, j);
    lemma_wf_counts(b);
    lemma_icon_resource(b, j);
    lemma_addable_at(b, target, (1 + b.icons.len() + j) as nat, 1 + j);
    lemma_group_fits(b, j);
}

/// Where resource `k` cannot be added to the object of those before it,
/// not every resource can be added.
proof fn lemma_not_addable(b: ResourceBuilderView, target: TargetType, k: int)
    requires
        0 <= k < b.resources().len(),
        !object_with(target, b.resources(), k as nat).can_add(b.resources()[k].payload.len()),
    ensures
        !b.addable(target, b.resources().len()),
{
    reveal(ResourceBuilderView::addable);
}

/// Nothing stands in the way of adding no resource.
proof fn lemma_addable_none(b: ResourceBuilderView, target: TargetType)
    ensures
        b.addable(target, 0),
{
    reveal(ResourceBuilderView::addable);
}

/// Where the first `n` resources can be added, resource `k` of them can
/// be added to the object of those before it.
pub proof fn lemma_addable_at(b: ResourceBuilderView, target: TargetType, n: nat, k: int)
    requires
        b.addable(target, n),
        0 <= k < n,
    ensures
        object_with(target, b.resources(), k as nat).can_add(b.resources()[k].payload.len()),
{
    reveal(ResourceBuilderView::addable);
}

/// Where the first `k` resources can be added and resource `k` can be
/// added to their object, the first `k + 1` can be added.
proof fn lemma_addable_step(b: ResourceBuilderView, target: TargetType, k: int)
    requires
        0 <= k < b.resources().len(),
        b.addable(target, k as nat),
        object_with(target, b.resources(), k as nat).can_add(b.resources()[k].payload.len()),
    ensures
        b.addable(target, (k + 1) as nat),
        object_with(target, b.resources(), (k + 1) as nat) == object_with(
            target,
            b.resources(),
            k as nat,
        ).added(b.resources()[k].ty, b.resources()[k].name as u32, b.resources()[k].payload),
{
    reveal(ResourceBuilderView::addable);
    assert forall|j: int| 0 <= j < k + 1 implies (#[trigger] object_with(
        target,
        b.resources(),
        j as nat,
    )).can_add(b.resources()[j].payload.len()) by {
        if j == k {
            assert(object_with(target, b.resources(), j as nat) == object_with(
                target,
                b.resources(),
                k as nat,
            ));
        }
    }
}

/// A file that can be compiled to an object has a version resource that
/// can be written and an object that can be written.
pub proof fn lemma_coff_fits(b: ResourceBuilderView, target: TargetType)
    requires
        b.coff_fits(target),
    ensures
        version_record(b.version).len() <= 0xFFFF,
        b.object(target).writable(),
{
    reveal(ResourceBuilderView::coff_fits);
}

impl ResourceBuilder {
    /// Whether the strings are in order and the icons and their groups agree.
    pub open spec fn wf(&self) -> bool {
        &&& self.version.strings.wf()
        &&& self@.wf()
    }

    /// A builder with nothing in it: versions 0.0.0.0, an executable, no
    /// flags, no strings, no icons, no manifest.
    pub fn new() -> (r: Self)
        ensures
            r.wf(),
            r@ == empty_builder(),
    {
        let r = ResourceBuilder {
            version: VersionInfo::default(),
            icon_groups: Vec::new(),
            icons: Vec::new(),
            manifest: None,
        };
        assert(r@.icon_groups =~= Seq::empty());
        assert(r@.icons =~= Seq::empty());
        proof {
            reveal(ResourceBuilderView::wf);
        }
        r
    }

    /// A builder with the metadata of a package: `major.minor.patch.0` as
    /// the version of the file and of the product, a part that could not be
    /// read counting as zero; and the strings `FileVersion`, `ProductVersion`,
    /// `ProductName` and `FileDescription`, with the name in place of an empty
    /// description.
    pub fn from_metadata(
        major: Option<u16>,
        minor: Option<u16>,
        patch: Option<u16>,
        version: &str,
        name: &str,
        description: &str,
    ) -> (r: Self)
        ensures
            r.wf(),
            r@ == (ResourceBuilderView {
                version: VersionInfoView {
                    file_version: Version {
                        major: version_part(major),
                        minor: version_part(minor),
                        patch: version_part(patch),
                        build: 0,
                    },
                    product_version: Version {
                        major: version_part(major),
                        minor: version_part(minor),
                        patch: version_part(patch),
                        build: 0,
                    },
                    strings: metadata_strings(version@, name@, description@),
                    ..empty_builder().version
                },
                ..empty_builder()
            }),
    {
        let number = Version::new(part_or_zero(major), part_or_zero(minor), part_or_zero(patch), 0);
        let described = if description.is_empty() {
            name
        } else {
            description
        };
        ResourceBuilder::new().set_file_version(number).set_product_version(number).add_string(
            "FileVersion",
            version,
        ).add_string("ProductVersion", version).add_string("ProductName", name).add_string(
            "FileDescription",
            described,
        )
    }

    /// Sets the version of the file.
    pub fn set_file_version(self, version: Version) -> (r: Self)
        ensures
            r.wf() == self.wf(),
            r@ == (ResourceBuilderView {
                version: VersionInfoView { file_version: version, ..self@.version },
                ..self@
            }),
    {
        let mut r = self;
        r.version.file_version = version;
        proof {
            reveal(ResourceBuilderView::wf);
        }
        r
    }

    /// Sets the version of the product.
    pub fn set_product_version(self, version: Version) -> (r: Self)
        ensures
            r.wf() == self.wf(),
            r@ == (ResourceBuilderView {
                version: VersionInfoView { product_version: version, ..self@.version },
                ..self@
            }),
    {
        let mut r = self;
        r.version.product_version = version;
        proof {
            reveal(ResourceBuilderView::wf);
        }
        r
    }

    /// Sets the type of the file.
    pub fn set_file_type(self, file_type: FileType) -> (r: Self)
        ensures
            r.wf() == self.wf(),
            r@ == (ResourceBuilderView {
                version: VersionInfoView { file_type, ..self@.version },
                ..self@
            }),
    {
        let mut r = self;
        r.version.file_type = file_type;
        proof {
            reveal(ResourceBuilderView::wf);
        }
        r
    }

    /// Adds every flag of `flags` to the set of file flags.
    pub fn add_file_flags(self, flags: Vec<FileFlag>) -> (r: Self)
        ensures
            r.wf() == self.wf(),
            r@ == (ResourceBuilderView {
                version: VersionInfoView {
                    flags: self@.version.flags.union(flags@.to_set()),
                    ..self@.version
                },
                ..self@
            }),
    {
        let mut r = self;
        let n = flags.len();
        let mut k: usize = 0;
        proof {
            reveal(ResourceBuilderView::wf);
            assert(flags@.take(0).to_set() =~= Set::<FileFlag>::empty());
            assert(self@.version.flags.union(Set::<FileFlag>::empty()) =~= self@.version.flags);
        }
        while k < n
            invariant
                k <= n,
                n == flags@.len(),
                r.wf() == self.wf(),
                r@ == (ResourceBuilderView {
                    version: VersionInfoView {
                        flags: self@.version.flags.union(flags@.take(k as int).to_set()),
                        ..self@.version
                    },
                    ..self@
                }),
            decreases n - k,
        {
            proof {
                reveal(ResourceBuilderView::wf);
                assert(flags@.take(k + 1) =~= flags@.take(k as int).push(flags@[k as int]));
                vstd::seq_lib::seq_to_set_is_finite(flags@.take(k as int));
                lemma_to_set_push(flags@.take(k as int), flags@[k as int]);
                assert(self@.version.flags.union(flags@.take(k as int).to_set()).insert(
                    flags@[k as int],
                ) =~= self@.version.flags.union(flags@.take(k + 1).to_set()));
            }
            r.version.flags.insert(flags[k]);
            k += 1;
        }
        proof {
            assert(flags@.take(n as int) =~= flags@);
        }
        r
    }

    /// Binds `key` to `value` in the string table; an earlier binding of the key is replaced.
    pub fn add_string(self, key: &str, value: &str) -> (r: Self)
        requires
            self.version.strings.wf(),
        ensures
            r.wf() == self.wf(),
            r.version.strings.wf(),
            r@ == (ResourceBuilderView {
                version: VersionInfoView {
                    strings: inserted(self@.version.strings, key@, value@),
                    ..self@.version
                },
                ..self@
            }),
            rank(self@.version.strings, key@) < r@.version.strings.len(),
            r@.version.strings[rank(self@.version.strings, key@) as int] == (key@, value@),
            r@.version.strings.len() == if has_key(self@.version.strings, key@) {
                self@.version.strings.len()
            } else {
                self@.version.strings.len() + 1
            },
    {
        let mut r = self;
        r.version.strings.insert(key.to_owned(), value.to_owned());
        proof {
            reveal(ResourceBuilderView::wf);
        }
        r
    }

    /// Sets the manifest, which must not be set yet.
    pub fn add_manifest(self, manifest: &str) -> (r: Self)
        requires
            self@.manifest is None,
        ensures
            r.wf() == self.wf(),
            r@ == (ResourceBuilderView { manifest: Some(manifest@), ..self@ }),
    {
        let mut r = self;
        r.manifest = Some(manifest.to_owned());
        proof {
            reveal(ResourceBuilderView::wf);
        }
        r
    }

    /// Whether an icon was added under the identifier `id`.
    pub fn has_icon(&self, id: u16) -> (r: bool)
        ensures
            r == self@.has_group(id),
    {
        let n = self.icon_groups.len();
        let mut k: usize = 0;
        while k < n
            invariant
                k <= n,
                n == self.icon_groups@.len(),
                forall|i: int| 0 <= i < k ==> (#[trigger] self@.icon_groups[i]).0 != id,
            decreases n - k,
        {
            if self.icon_groups[k].0 == id {
                assert(self@.icon_groups[k as int].0 == id);
                return true;
            }
            k += 1;
        }
        false
    }

    /// Adds an icon: an Icon resource with the next identifier from
    /// [`ICON_BASE_ID`] on, and under `id` an icon group that names it.
    pub fn add_icon(self, id: u16, icon: Icon) -> (r: Self)
        requires
            self.wf(),
            !self@.has_group(id),
            self@.icons.len() + ICON_BASE_ID < 0x1_0000,
        ensures
            r.wf(),
            r@ == (ResourceBuilderView {
                icon_groups: self@.icon_groups.push(
                    (
                        id,
                        IconGroupEntry {
                            icon_id: (ICON_BASE_ID + self@.icons.len()) as u16,
                            icon_size: icon@.len() as usize,
                        },
                    ),
                ),
                icons: self@.icons.push(((ICON_BASE_ID + self@.icons.len()) as u16, icon@)),
                ..self@
            }),
    {
        let mut r = self;
        proof {
            reveal(ResourceBuilderView::wf);
        }
        let icon_id = ICON_BASE_ID + r.icons.len() as u16;
        let entry = IconGroupEntry { icon_id, icon_size: icon.0.len() };
        r.icon_groups.push((id, [entry]));
        r.icons.push((icon_id, icon));
        proof {
            reveal(ResourceBuilderView::wf);
            assert(r@.icon_groups =~= self@.icon_groups.push((id, entry)));
            assert(r@.icons =~= self@.icons.push((icon_id, icon@)));
            assert forall|i: int, j: int| 0 <= i < j < r@.icon_groups.len() implies (
            #[trigger] r@.icon_groups[i]).0 != (#[trigger] r@.icon_groups[j]).0 by {
                if j == self@.icon_groups.len() {
                    assert(self@.icon_groups[i].0 != id);
                } else {
                    assert(r@.icon_groups[i] == self@.icon_groups[i]);
                    assert(r@.icon_groups[j] == self@.icon_groups[j]);
                }
            }
            assert forall|i: int| 0 <= i < r@.icon_groups.len() implies (
            #[trigger] r@.icon_groups[i]).1 == (IconGroupEntry {
                icon_id: (ICON_BASE_ID + i) as u16,
                icon_size: r@.icons[i].1.len() as usize,
            }) by {
                if i < self@.icon_groups.len() {
                    assert(r@.icon_groups[i] == self@.icon_groups[i]);
                    assert(r@.icons[i] == self@.icons[i]);
                }
            }
            assert forall|i: int| 0 <= i < r@.icons.len() implies (#[trigger] r@.icons[i]).0
                == ICON_BASE_ID + i by {
                if i < self@.icons.len() {
                    assert(r@.icons[i] == self@.icons[i]);
                }
            }
        }
        r
    }
}

impl Default for ResourceBuilder {
    /// A builder with nothing in it, as [`ResourceBuilder::new`] gives.
    fn default() -> (r: Self)
        ensures
            r.wf(),
            r@ == empty_builder(),
    {
        ResourceBuilder::new()
    }
}

/// One part of a version number, where it could be read, and else zero.
pub fn part_or_zero(part: Option<u16>) -> (r: u16)
    ensures
        r == version_part(part),
{
    match part {
        Some(v) => v,
        None => 0,
    }
}

/// The elements of a sequence with one pushed are those of the sequence and the one.
proof fn lemma_to_set_push(s: Seq<FileFlag>, x: FileFlag)
    ensures
        s.push(x).to_set() == s.to_set().insert(x),
{
    assert forall|y: FileFlag| s.push(x).to_set().contains(y) == s.to_set().insert(x).contains(
        y,
    ) by {
        if s.push(x).to_set().contains(y) {
            let i = choose|i: int| 0 <= i < s.push(x).len() && s.push(x)[i] == y;
            if i < s.len() {
                assert(s[i] == y);
                assert(s.contains(y));
            }
        }
        if s.to_set().insert(x).contains(y) {
            if y == x {
                assert(s.push(x)[s.len() as int] == y);
                assert(s.push(x).contains(y));
            } else {
                let i = choose|i: int| 0 <= i < s.len() && s[i] == y;
                assert(s.push(x)[i] == y);
                assert(s.push(x).contains(y));
            }
        }
    }
    assert(s.push(x).to_set() =~= s.to_set().insert(x));
}

} // verus!
