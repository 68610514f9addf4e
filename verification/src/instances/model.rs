//! Instances: what is persisted about each one, and the lifecycle state the
//! manager holds in memory.

use crate::text::{chars_of, extend_str, owned, str_eq, string_of};
use crate::error::{is_internal_error, AppError};
use vstd::prelude::*;

verus! {

/// The default, digest-pinned SQL Server image (verified under Rosetta).
pub const DEFAULT_IMAGE: &'static str = "mcr.microsoft.com/mssql/server:2022-CU26-ubuntu-22.04@sha256:ba4c8329f48fb8f02e1416be6a930ebfd71268caee78aa985f3af4315e457c89";

pub const IMAGE_2025: &'static str = "mcr.microsoft.com/mssql/server:2025-CU8-ubuntu-24.04@sha256:4bab24f36c1ecd48e85f7d37df26e6bf301641d84c3fe652f9a0dcc947d512e1";

pub const IMAGE_2019: &'static str = "mcr.microsoft.com/mssql/server:2019-CU32-ubuntu-20.04@sha256:7a879e9af3557e81a3b3ad14acd071e3638788387f394d27a9d3404b28e954ce";

pub const IMAGE_2017: &'static str = "mcr.microsoft.com/mssql/server:2017-CU31-ubuntu-18.04@sha256:7d194c54e34cb63bca083542369485c8f4141596805611e84d8c8bab2339eede";

pub const DEFAULT_MEMORY_MB: u32 = 4096;

pub const DEFAULT_SQL_MEMORY_MB: u32 = 3072;

/// A SQL Server version offered at instance creation. Digest-pinned (never
/// `:latest`). 2025 must be CU1+ — the RTM requires AVX, which
/// Rosetta-for-Linux doesn't expose.
#[derive(Debug, Clone)]
pub struct SqlVersionInfo {
    pub id: &'static str,
    pub label: &'static str,
    pub image: &'static str,
    pub recommended: bool,
}

/// The versions offered, newest first; 2022 is the recommended default.
pub fn sql_versions() -> (r: Vec<SqlVersionInfo>)
    ensures
        r@.len() == 4,
        r@[0].id@ == "2025"@ && r@[0].image@ == IMAGE_2025@ && !r@[0].recommended,
        r@[1].id@ == "2022"@ && r@[1].image@ == DEFAULT_IMAGE@ && r@[1].recommended,
        r@[2].id@ == "2019"@ && r@[2].image@ == IMAGE_2019@ && !r@[2].recommended,
        r@[3].id@ == "2017"@ && r@[3].image@ == IMAGE_2017@ && !r@[3].recommended,
        r@[0].label@ == "SQL Server 2025 (CU8)"@,
        r@[1].label@ == "SQL Server 2022 (CU26)"@,
        r@[2].label@ == "SQL Server 2019 (CU32)"@,
        r@[3].label@ == "SQL Server 2017 (CU31)"@,
{
    let mut v = Vec::new();
    v.push(SqlVersionInfo { id: "2025", label: "SQL Server 2025 (CU8)", image: IMAGE_2025, recommended: false });
    v.push(SqlVersionInfo { id: "2022", label: "SQL Server 2022 (CU26)", image: DEFAULT_IMAGE, recommended: true });
    v.push(SqlVersionInfo { id: "2019", label: "SQL Server 2019 (CU32)", image: IMAGE_2019, recommended: false });
    v.push(SqlVersionInfo { id: "2017", label: "SQL Server 2017 (CU31)", image: IMAGE_2017, recommended: false });
    v
}

/// The pinned image of an offered version id.
pub open spec fn spec_image_for_version(id: Seq<char>) -> Option<Seq<char>> {
    if id == "2025"@ {
        Some(IMAGE_2025@)
    } else if id == "2022"@ {
        Some(DEFAULT_IMAGE@)
    } else if id == "2019"@ {
        Some(IMAGE_2019@)
    } else if id == "2017"@ {
        Some(IMAGE_2017@)
    } else {
        None
    }
}

pub fn image_for_version(id: &str) -> (r: Option<&'static str>)
    ensures
        match r {
            Some(img) => spec_image_for_version(id@) == Some(img@),
            None => spec_image_for_version(id@) is None,
        },
{
    if str_eq(id, "2025") {
        Some(IMAGE_2025)
    } else if str_eq(id, "2022") {
        Some(DEFAULT_IMAGE)
    } else if str_eq(id, "2019") {
        Some(IMAGE_2019)
    } else if str_eq(id, "2017") {
        Some(IMAGE_2017)
    } else {
        None
    }
}

pub open spec fn is_lower_hex(c: char) -> bool {
    ('0' <= c && c <= '9') || ('a' <= c && c <= 'f')
}

/// An image reference pinned to an exact digest: it ends in `@sha256:` and
/// 64 lower-case hex digits (no moving tag such as `:latest` decides what
/// is pulled).
pub open spec fn is_digest_pinned(image: Seq<char>) -> bool {
    &&& image.len() >= 72
    &&& image.subrange(image.len() - 72, image.len() - 64) == "@sha256:"@
    &&& forall|i: int| image.len() - 64 <= i < image.len() ==> is_lower_hex(#[trigger] image[i])
}

/// Every character from `from` on is a lower-case hex digit.
spec fn hex_from(s: Seq<char>, from: int) -> bool
    decreases s.len() - from,
{
    if from < 0 || from >= s.len() {
        true
    } else {
        is_lower_hex(s[from]) && hex_from(s, from + 1)
    }
}

proof fn lemma_hex_from(s: Seq<char>, from: int)
    requires
        0 <= from,
        hex_from(s, from),
    ensures
        forall|i: int| from <= i < s.len() ==> is_lower_hex(#[trigger] s[i]),
    decreases s.len() - from,
{
    if from < s.len() {
        lemma_hex_from(s, from + 1);
    }
}

proof fn lemma_pinned(image: Seq<char>)
    requires
        image.len() >= 72,
        image.subrange(image.len() - 72, image.len() - 64) == "@sha256:"@,
        hex_from(image, image.len() - 64),
    ensures
        is_digest_pinned(image),
{
    lemma_hex_from(image, image.len() - 64);
}

/// The image of a version is SQL Server's repository tagged with that
/// version: `mcr.microsoft.com/mssql/server:{id}-...`.
pub proof fn lemma_offered_images_tagged(id: Seq<char>)
    requires
        spec_image_for_version(id) is Some,
    ensures
        ({
            let prefix = "mcr.microsoft.com/mssql/server:"@ + id + "-"@;
            let img = spec_image_for_version(id)->0;
            img.len() >= prefix.len() && img.take(prefix.len() as int) == prefix
        }),
{
    reveal_strlit("mcr.microsoft.com/mssql/server:");
    reveal_strlit("-");
    reveal_strlit("2025");
    reveal_strlit("2022");
    reveal_strlit("2019");
    reveal_strlit("2017");
    reveal_strlit("mcr.microsoft.com/mssql/server:2025-CU8-ubuntu-24.04@sha256:4bab24f36c1ecd48e85f7d37df26e6bf301641d84c3fe652f9a0dcc947d512e1");
    reveal_strlit("mcr.microsoft.com/mssql/server:2022-CU26-ubuntu-22.04@sha256:ba4c8329f48fb8f02e1416be6a930ebfd71268caee78aa985f3af4315e457c89");
    reveal_strlit("mcr.microsoft.com/mssql/server:2019-CU32-ubuntu-20.04@sha256:7a879e9af3557e81a3b3ad14acd071e3638788387f394d27a9d3404b28e954ce");
    reveal_strlit("mcr.microsoft.com/mssql/server:2017-CU31-ubuntu-18.04@sha256:7d194c54e34cb63bca083542369485c8f4141596805611e84d8c8bab2339eede");
    let prefix = "mcr.microsoft.com/mssql/server:"@ + id + "-"@;
    let img = spec_image_for_version(id)->0;
    assert(img.take(prefix.len() as int) =~= prefix);
}

/// Every SQL Server version offered is pinned to an exact image digest.
pub proof fn lemma_offered_images_pinned(id: Seq<char>)
    requires
        spec_image_for_version(id) is Some,
    ensures
        is_digest_pinned(spec_image_for_version(id)->0),
{
    reveal_strlit("@sha256:");
    reveal_with_fuel(hex_from, 65);
    reveal_strlit("mcr.microsoft.com/mssql/server:2025-CU8-ubuntu-24.04@sha256:4bab24f36c1ecd48e85f7d37df26e6bf301641d84c3fe652f9a0dcc947d512e1");
    assert(IMAGE_2025@.subrange(IMAGE_2025@.len() - 72, IMAGE_2025@.len() - 64) =~= "@sha256:"@);
    lemma_pinned(IMAGE_2025@);
    reveal_strlit("mcr.microsoft.com/mssql/server:2022-CU26-ubuntu-22.04@sha256:ba4c8329f48fb8f02e1416be6a930ebfd71268caee78aa985f3af4315e457c89");
    assert(DEFAULT_IMAGE@.subrange(DEFAULT_IMAGE@.len() - 72, DEFAULT_IMAGE@.len() - 64) =~= "@sha256:"@);
    lemma_pinned(DEFAULT_IMAGE@);
    reveal_strlit("mcr.microsoft.com/mssql/server:2019-CU32-ubuntu-20.04@sha256:7a879e9af3557e81a3b3ad14acd071e3638788387f394d27a9d3404b28e954ce");
    assert(IMAGE_2019@.subrange(IMAGE_2019@.len() - 72, IMAGE_2019@.len() - 64) =~= "@sha256:"@);
    lemma_pinned(IMAGE_2019@);
    reveal_strlit("mcr.microsoft.com/mssql/server:2017-CU31-ubuntu-18.04@sha256:7d194c54e34cb63bca083542369485c8f4141596805611e84d8c8bab2339eede");
    assert(IMAGE_2017@.subrange(IMAGE_2017@.len() - 72, IMAGE_2017@.len() - 64) =~= "@sha256:"@);
    lemma_pinned(IMAGE_2017@);
}

/// `uuid::Uuid::new_v4().simple().to_string()`: a fresh random id in the
/// "simple" format, which the crate documents as 32 lower-case hex digits.
#[verifier::external_body]
pub(crate) fn new_uuid_simple() -> (r: String)
    ensures
        r@.len() == 32,
        forall|i: int| 0 <= i < 32 ==> is_lower_hex(#[trigger] r@[i]),
{
    uuid::Uuid::new_v4().simple().to_string()
}

/// `chrono::Utc::now()` as RFC 3339 text (UTC, `Z` suffix). Which time it
/// is depends on the clock; only the shape of the text is stated.
#[verifier::external_body]
fn utc_now_rfc3339() -> (r: String)
    ensures
        crate::text::is_rfc3339_utc(r@),
{
    chrono::Utc::now().to_rfc3339_opts(chrono::SecondsFormat::AutoSi, true)
}

/// A persisted instance definition.
#[derive(Debug, Clone)]
pub struct Instance {
    pub id: String,
    pub name: String,
    pub image: String,
    pub memory_mb: u32,
    pub sql_memory_mb: u32,
    /// RFC 3339 creation time.
    pub created_at: String,
}

pub ghost struct InstanceSpec {
    pub id: Seq<char>,
    pub name: Seq<char>,
    pub image: Seq<char>,
    pub memory_mb: u32,
    pub sql_memory_mb: u32,
    pub created_at: Seq<char>,
}

impl View for Instance {
    type V = InstanceSpec;

    open spec fn view(&self) -> InstanceSpec {
        InstanceSpec {
            id: self.id@,
            name: self.name@,
            image: self.image@,
            memory_mb: self.memory_mb,
            sql_memory_mb: self.sql_memory_mb,
            created_at: self.created_at@,
        }
    }
}

/// SQL Server's own memory limit for a container of `memory_mb`: 1 GiB is
/// left to the OS, and at most 3 GiB goes to SQL Server.
pub open spec fn sql_memory_for(memory_mb: u32) -> u32 {
    let avail = if memory_mb >= 1024 {
        (memory_mb - 1024) as u32
    } else {
        0u32
    };
    if avail < DEFAULT_SQL_MEMORY_MB {
        avail
    } else {
        DEFAULT_SQL_MEMORY_MB
    }
}

/// An instance id: `bh-` followed by 12 lower-case hex digits.
pub open spec fn is_instance_id(id: Seq<char>) -> bool {
    &&& id.len() == 15
    &&& id.take(3) == "bh-"@
    &&& forall|i: int| 3 <= i < 15 ==> is_lower_hex(#[trigger] id[i])
}

/// `sql_memory_mb` after the container memory becomes `memory_mb`: the old
/// value, capped so that 1 GiB stays free.
pub open spec fn capped_sql_memory(old_sql: u32, memory_mb: u32) -> u32 {
    let avail = if memory_mb >= 1024 {
        (memory_mb - 1024) as u32
    } else {
        0u32
    };
    if old_sql < avail {
        old_sql
    } else {
        avail
    }
}

pub fn capped_sql_memory_mb(old_sql: u32, memory_mb: u32) -> (r: u32)
    ensures
        r == capped_sql_memory(old_sql, memory_mb),
{
    let avail = memory_mb.saturating_sub(1024);
    if old_sql < avail {
        old_sql
    } else {
        avail
    }
}

impl Instance {
    /// A new instance with a fresh random id and the current time.
    pub fn new(name: String, memory_mb: u32, image: String) -> (r: Self)
        ensures
            r.name == name,
            r.image == image,
            r.memory_mb == memory_mb,
            r.sql_memory_mb == sql_memory_for(memory_mb),
            is_instance_id(r.id@),
            crate::text::is_rfc3339_utc(r.created_at@),
    {
        let u = new_uuid_simple();
        let uc = chars_of(u.as_str());
        let mut id: Vec<char> = Vec::new();
        extend_str(&mut id, "bh-");
        proof {
            reveal_strlit("bh-");
            assert(id@.take(3) =~= id@);
        }
        let mut i: usize = 0;
        while i < 12
            invariant
                i <= 12,
                uc@.len() == 32,
                forall|k: int| 0 <= k < 32 ==> is_lower_hex(#[trigger] uc@[k]),
                id@.len() == 3 + i,
                id@.take(3) == "bh-"@,
                forall|k: int| 3 <= k < 3 + i ==> is_lower_hex(#[trigger] id@[k]),
            decreases 12 - i,
        {
            let ghost before = id@;
            id.push(uc[i]);
            assert(id@.take(3) =~= before.take(3));
            i += 1;
        }
        let sql_memory_mb = capped_sql_memory_mb(DEFAULT_SQL_MEMORY_MB, memory_mb);
        Instance {
            id: string_of(id.as_slice()),
            name,
            image,
            memory_mb,
            sql_memory_mb,
            created_at: utc_now_rfc3339(),
        }
    }

    /// A field-by-field copy.
    pub fn copy(&self) -> (r: Self)
        ensures
            r@ == self@,
    {
        Instance {
            id: owned(self.id.as_str()),
            name: owned(self.name.as_str()),
            image: owned(self.image.as_str()),
            memory_mb: self.memory_mb,
            sql_memory_mb: self.sql_memory_mb,
            created_at: owned(self.created_at.as_str()),
        }
    }

    /// Named volume holding /var/opt/mssql (data survives container removal).
    pub fn volume(&self) -> (r: String)
        ensures
            r@ == self.id@ + "-data"@,
    {
        let mut v = chars_of(self.id.as_str());
        extend_str(&mut v, "-data");
        string_of(v.as_slice())
    }
}

/// Lifecycle state, held in memory by the manager (never persisted).
#[derive(Debug, Clone, PartialEq, Eq)]
pub enum InstanceState {
    Stopped,
    Pulling,
    Starting,
    WaitingForSql,
    Running { ip: String },
    Stopping,
    Failed { stage: String, detail: String },
}

pub ghost enum StateSpec {
    Stopped,
    Pulling,
    Starting,
    WaitingForSql,
    Running { ip: Seq<char> },
    Stopping,
    Failed { stage: Seq<char>, detail: Seq<char> },
}

impl View for InstanceState {
    type V = StateSpec;

    open spec fn view(&self) -> StateSpec {
        match self {
            InstanceState::Stopped => StateSpec::Stopped,
            InstanceState::Pulling => StateSpec::Pulling,
            InstanceState::Starting => StateSpec::Starting,
            InstanceState::WaitingForSql => StateSpec::WaitingForSql,
            InstanceState::Running { ip } => StateSpec::Running { ip: ip@ },
            InstanceState::Stopping => StateSpec::Stopping,
            InstanceState::Failed { stage, detail } => StateSpec::Failed { stage: stage@, detail: detail@ },
        }
    }
}

pub open spec fn state_label(s: StateSpec) -> Seq<char> {
    match s {
        StateSpec::Stopped => "stopped"@,
        StateSpec::Pulling => "pulling"@,
        StateSpec::Starting => "starting"@,
        StateSpec::WaitingForSql => "waitingForSql"@,
        StateSpec::Running { .. } => "running"@,
        StateSpec::Stopping => "stopping"@,
        StateSpec::Failed { .. } => "failed"@,
    }
}

impl InstanceState {
    /// A variant-by-variant copy.
    pub fn copy(&self) -> (r: Self)
        ensures
            r@ == self@,
    {
        match self {
            InstanceState::Stopped => InstanceState::Stopped,
            InstanceState::Pulling => InstanceState::Pulling,
            InstanceState::Starting => InstanceState::Starting,
            InstanceState::WaitingForSql => InstanceState::WaitingForSql,
            InstanceState::Running { ip } => InstanceState::Running { ip: owned(ip.as_str()) },
            InstanceState::Stopping => InstanceState::Stopping,
            InstanceState::Failed { stage, detail } => InstanceState::Failed {
                stage: owned(stage.as_str()),
                detail: owned(detail.as_str()),
            },
        }
    }

    pub open spec fn spec_label(&self) -> Seq<char> {
        match self {
            InstanceState::Stopped => "stopped"@,
            InstanceState::Pulling => "pulling"@,
            InstanceState::Starting => "starting"@,
            InstanceState::WaitingForSql => "waitingForSql"@,
            InstanceState::Running { .. } => "running"@,
            InstanceState::Stopping => "stopping"@,
            InstanceState::Failed { .. } => "failed"@,
        }
    }

    pub proof fn lemma_label_view(&self)
        ensures
            self.spec_label() == state_label(self@),
    {
    }

    /// The state's name as shown to the frontend and in the connection manifest.
    pub fn label(&self) -> (r: &'static str)
        ensures
            r@ == self.spec_label(),
    {
        match self {
            InstanceState::Stopped => "stopped",
            InstanceState::Pulling => "pulling",
            InstanceState::Starting => "starting",
            InstanceState::WaitingForSql => "waitingForSql",
            InstanceState::Running { .. } => "running",
            InstanceState::Stopping => "stopping",
            InstanceState::Failed { .. } => "failed",
        }
    }
}

/// The image a new instance is created with: the default when no version
/// is asked for, else the offered version's pinned image.
pub fn image_for_request(sql_version: Option<&str>) -> (r: Result<&'static str, AppError>)
    ensures
        match sql_version {
            None => r matches Ok(img) && img@ == DEFAULT_IMAGE@,
            Some(v) => match spec_image_for_version(v@) {
                Some(img) => r matches Ok(x) && x@ == img,
                None => r matches Err(e) && is_internal_error(e, "unknown SQL Server version '"@ + v@ + "'"@),
            },
        },
{
    match sql_version {
        None => Ok(DEFAULT_IMAGE),
        Some(v) => match image_for_version(v) {
            Some(img) => Ok(img),
            None => Err(AppError::Internal(crate::text::concat3("unknown SQL Server version '", v, "'"))),
        },
    }
}

} // verus!
