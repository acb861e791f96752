use vstd::prelude::*;
use vstd::string::*;

verus! {

/// A mounted volume as the volume listing reports it.
#[derive(Clone, Debug, Default)]
pub struct Volume {
    pub name: String,
    pub mount_point: String,
    pub total_capacity: u64,
    pub available_capacity: u64,
    pub is_removable: bool,
    pub disk_type: Option<String>,
    pub file_system: Option<String>,
    pub is_root_filesystem: bool,
}

/// Why volumes could not be recorded.
#[derive(Clone, Debug, PartialEq, Eq)]
pub enum VolumeError {
    /// The database refused the write; the message says why.
    DatabaseErr(String),
}

/// The kind of drive a disk reports.
#[derive(Clone, Copy, Debug, PartialEq, Eq, Structural)]
pub enum DiskKind {
    Ssd,
    Hdd,
    Other,
}

/// The label of a drive kind; a drive of unknown kind is taken for removable.
pub open spec fn disk_kind_label(k: DiskKind) -> Seq<char> {
    match k {
        DiskKind::Ssd => "SSD"@,
        DiskKind::Hdd => "HDD"@,
        DiskKind::Other => "Removable Disk"@,
    }
}

/// The mount point lies under the system's own `/System` tree.
pub open spec fn under_system(mount_point: Seq<char>) -> bool {
    mount_point.len() >= "/System"@.len() && mount_point.subrange(0, "/System"@.len() as int)
        == "/System"@
}

/// The mount point is that of the main volume, which is reported as
/// "Macintosh HD" at `/`: the root on macOS, or the system data volume.
pub open spec fn is_main_volume(mount_point: Seq<char>, is_macos: bool) -> bool {
    (is_macos && mount_point == "/"@) || mount_point == "/System/Volumes/Data"@
}

/// The volumes that are listed, in order: all but those under `/System`.
pub open spec fn listed(vs: Seq<Volume>) -> Seq<Volume>
    decreases vs.len(),
{
    if vs.len() == 0 {
        Seq::empty()
    } else if under_system(vs[0].mount_point@) {
        listed(vs.drop_first())
    } else {
        seq![vs[0]] + listed(vs.drop_first())
    }
}

/// The label of a drive kind.
pub fn disk_kind_name(k: DiskKind) -> (r: String)
    ensures
        r@ == disk_kind_label(k),
{
    proof {
        reveal_strlit("SSD");
        reveal_strlit("HDD");
        reveal_strlit("Removable Disk");
    }
    match k {
        DiskKind::Ssd => "SSD".to_owned(),
        DiskKind::Hdd => "HDD".to_owned(),
        DiskKind::Other => "Removable Disk".to_owned(),
    }
}

/// Whether a mount point lies under `/System`.
pub fn is_under_system(mount_point: &String) -> (r: bool)
    ensures
        r == under_system(mount_point@),
{
    let prefix = "/System";
    proof {
        reveal_strlit("/System");
    }
    let s = mount_point.as_str();
    let n = prefix.unicode_len();
    if s.unicode_len() < n {
        return false;
    }
    let mut i: usize = 0;
    while i < n
        invariant
            n == prefix@.len(),
            prefix@ == "/System"@,
            s@ == mount_point@,
            n <= s@.len(),
            i <= n,
            forall|j: int| 0 <= j < i ==> s@[j] == prefix@[j],
        decreases n - i,
    {
        if s.get_char(i) != prefix.get_char(i) {
            assert(s@.subrange(0, n as int)[i as int] != prefix@[i as int]);
            return false;
        }
        i += 1;
    }
    assert(s@.subrange(0, n as int) =~= prefix@);
    true
}

/// Builds the listing entry of one disk from what the system reports of it.
/// A name or mount point that is not valid text is `None` and becomes
/// "Volume" or `/`; a file system name that is not valid text is `None` and
/// becomes "Err". The main volume is renamed "Macintosh HD" and mounted at `/`.
pub fn volume_from_disk(name: Option<String>, mount_point: Option<String>, total_space: u64, available_space: u64, is_removable: bool, file_system: Option<String>, kind: DiskKind, is_macos: bool) -> (r: Volume)
    ensures
        ({
            let mp = match mount_point {
                Some(m) => m@,
                None => "/"@,
            };
            let nm = match name {
                Some(n) => n@,
                None => "Volume"@,
            };
            &&& r.name@ == (if is_main_volume(mp, is_macos) {
                "Macintosh HD"@
            } else {
                nm
            })
            &&& r.mount_point@ == (if is_main_volume(mp, is_macos) {
                "/"@
            } else {
                mp
            })
            &&& r.total_capacity == total_space
            &&& r.available_capacity == available_space
            &&& r.is_removable == is_removable
            &&& r.disk_type matches Some(d) && d@ == disk_kind_label(kind)
            &&& r.file_system matches Some(f) && f@ == match file_system {
                Some(f) => f@,
                None => "Err"@,
            }
            &&& r.is_root_filesystem == (r.mount_point@ == "/"@)
        }),
{
    proof {
        reveal_strlit("/");
        reveal_strlit("Volume");
        reveal_strlit("Err");
        reveal_strlit("Macintosh HD");
        reveal_strlit("/System/Volumes/Data");
    }
    let root = "/".to_owned();
    let mut mp = match mount_point {
        Some(m) => m,
        None => "/".to_owned(),
    };
    let mut nm = match name {
        Some(n) => n,
        None => "Volume".to_owned(),
    };
    let fs = match file_system {
        Some(f) => f,
        None => "Err".to_owned(),
    };
    let data_volume = "/System/Volumes/Data".to_owned();
    if (is_macos && mp == root) || mp == data_volume {
        nm = "Macintosh HD".to_owned();
        mp = "/".to_owned();
    }
    let is_root = mp == root;
    Volume {
        name: nm,
        mount_point: mp,
        total_capacity: total_space,
        available_capacity: available_space,
        is_removable,
        disk_type: Some(disk_kind_name(kind)),
        file_system: Some(fs),
        is_root_filesystem: is_root,
    }
}

/// Keeps the volumes that are listed, in their order.
pub fn list_volumes(volumes: Vec<Volume>) -> (r: Vec<Volume>)
    ensures
        r@ == listed(volumes@),
{
    let mut rest = volumes;
    let mut out: Vec<Volume> = Vec::new();
    while rest.len() > 0
        invariant
            out@ + listed(rest@) == listed(volumes@),
        decreases rest@.len(),
    {
        let ghost before = rest@;
        let v = rest.remove(0);
        assert(before.drop_first() =~= rest@);
        if !is_under_system(&v.mount_point) {
            proof {
                assert(out@.push(v) + listed(rest@) =~= out@ + (seq![v] + listed(rest@)));
            }
            out.push(v);
        }
    }
    assert(out@ + listed(rest@) =~= out@);
    out
}

} // verus!
