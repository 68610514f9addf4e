//! Exporting an instance as a `docker-compose.yml` and a README so it can
//! be recreated with plain Docker: the files' names and contents. Writing
//! them happens elsewhere.

use super::model::{Instance, InstanceSpec};
use crate::text::{chars_of, dec_digits, extend_chars, extend_str, owned, string_of, u64_dec};
use vstd::prelude::*;

verus! {

pub open spec fn is_ascii_alnum(c: char) -> bool {
    ('a' <= c && c <= 'z') || ('A' <= c && c <= 'Z') || ('0' <= c && c <= '9')
}

pub open spec fn ascii_lowercase(c: char) -> char {
    if 'A' <= c && c <= 'Z' {
        ((c as int) + 32) as char
    } else {
        c
    }
}

/// The compose service name: ASCII letters and digits lower-cased, every
/// other character `-`.
pub open spec fn spec_service_name(name: Seq<char>) -> Seq<char> {
    name.map_values(|c: char| if is_ascii_alnum(c) { ascii_lowercase(c) } else { '-' })
}

pub fn service_name(name: &str) -> (r: String)
    ensures
        r@ == spec_service_name(name@),
{
    let v = chars_of(name);
    let mut out: Vec<char> = Vec::new();
    let mut i: usize = 0;
    while i < v.len()
        invariant
            i <= v@.len(),
            v@ == name@,
            out@ == spec_service_name(v@.take(i as int)),
        decreases v@.len() - i,
    {
        let c = v[i];
        let d = if ('a' <= c && c <= 'z') || ('0' <= c && c <= '9') {
            c
        } else if 'A' <= c && c <= 'Z' {
            ((c as u8) + 32) as char
        } else {
            '-'
        };
        out.push(d);
        assert(spec_service_name(v@.take(i + 1)) =~= spec_service_name(v@.take(i as int)).push(d));
        i += 1;
    }
    assert(v@.take(v@.len() as int) =~= v@);
    string_of(out.as_slice())
}

/// The password line of the compose environment: taken from `.env` when
/// the password is exported, else required from the environment.
pub open spec fn spec_password_line(has_password: bool) -> Seq<char> {
    if has_password {
        "      MSSQL_SA_PASSWORD: ${MSSQL_SA_PASSWORD}"@
    } else {
        "      MSSQL_SA_PASSWORD: ${MSSQL_SA_PASSWORD:?set a strong sa password}"@
    }
}

fn password_line(has_password: bool) -> (r: &'static str)
    ensures
        r@ == spec_password_line(has_password),
{
    if has_password {
        "      MSSQL_SA_PASSWORD: ${MSSQL_SA_PASSWORD}"
    } else {
        "      MSSQL_SA_PASSWORD: ${MSSQL_SA_PASSWORD:?set a strong sa password}"
    }
}

pub open spec fn spec_env_note(has_password: bool) -> Seq<char> {
    if has_password {
        "- The sa password is in `.env` — keep that file private."@
    } else {
        "- Set MSSQL_SA_PASSWORD in the environment (or a .env file) before starting."@
    }
}

fn env_note(has_password: bool) -> (r: &'static str)
    ensures
        r@ == spec_env_note(has_password),
{
    if has_password {
        "- The sa password is in `.env` — keep that file private."
    } else {
        "- Set MSSQL_SA_PASSWORD in the environment (or a .env file) before starting."
    }
}

pub open spec fn spec_compose_text(inst: InstanceSpec, has_password: bool) -> Seq<char> {
    "# Exported from Bakehouse — instance \""@ + inst.name + "\"\n# Run with: docker compose up -d        (on amd64, or Apple Silicon with Rosetta enabled)\nservices:\n  "@ + spec_service_name(inst.name) + ":\n    image: "@ + inst.image + "\n    platform: linux/amd64\n    environment:\n      ACCEPT_EULA: \"Y\"\n"@ + spec_password_line(has_password) + "\n      MSSQL_MEMORY_LIMIT_MB: \""@ + dec_digits(inst.sql_memory_mb as nat) + "\"\n    ports:\n      - \"1433:1433\"\n    volumes:\n      - "@ + spec_service_name(inst.name) + "-data:/var/opt/mssql\n    deploy:\n      resources:\n        limits:\n          memory: "@ + dec_digits(inst.memory_mb as nat) + "M\n    healthcheck:\n      test: [\"CMD-SHELL\", \"/opt/mssql-tools18/bin/sqlcmd -C -S localhost -U sa -P \\\"$$MSSQL_SA_PASSWORD\\\" -Q 'SELECT 1' || exit 1\"]\n      interval: 15s\n      timeout: 5s\n      retries: 10\n\nvolumes:\n  "@ + spec_service_name(inst.name) + "-data:\n"@
}

/// The `docker-compose.yml` of an instance: its pinned image under amd64
/// emulation, the EULA accepted, the password from the environment, its
/// memory limits, port 1433, a named data volume and a health check.
pub fn compose_text(instance: &Instance, has_password: bool) -> (r: String)
    ensures
        r@ == spec_compose_text(instance@, has_password),
{
    let service = service_name(instance.name.as_str());
    let mut v: Vec<char> = Vec::new();
    extend_str(&mut v, "# Exported from Bakehouse — instance \"");
    extend_str(&mut v, instance.name.as_str());
    extend_str(&mut v, "\"\n# Run with: docker compose up -d        (on amd64, or Apple Silicon with Rosetta enabled)\nservices:\n  ");
    extend_str(&mut v, service.as_str());
    extend_str(&mut v, ":\n    image: ");
    extend_str(&mut v, instance.image.as_str());
    extend_str(&mut v, "\n    platform: linux/amd64\n    environment:\n      ACCEPT_EULA: \"Y\"\n");
    extend_str(&mut v, password_line(has_password));
    extend_str(&mut v, "\n      MSSQL_MEMORY_LIMIT_MB: \"");
    let sm = u64_dec(instance.sql_memory_mb as u64);
    extend_chars(&mut v, sm.as_slice());
    extend_str(&mut v, "\"\n    ports:\n      - \"1433:1433\"\n    volumes:\n      - ");
    extend_str(&mut v, service.as_str());
    extend_str(&mut v, "-data:/var/opt/mssql\n    deploy:\n      resources:\n        limits:\n          memory: ");
    let mm = u64_dec(instance.memory_mb as u64);
    extend_chars(&mut v, mm.as_slice());
    extend_str(&mut v, "M\n    healthcheck:\n      test: [\"CMD-SHELL\", \"/opt/mssql-tools18/bin/sqlcmd -C -S localhost -U sa -P \\\"$$MSSQL_SA_PASSWORD\\\" -Q 'SELECT 1' || exit 1\"]\n      interval: 15s\n      timeout: 5s\n      retries: 10\n\nvolumes:\n  ");
    extend_str(&mut v, service.as_str());
    extend_str(&mut v, "-data:\n");
    string_of(v.as_slice())
}

pub open spec fn spec_readme_text(inst: InstanceSpec, has_password: bool, date: Seq<char>) -> Seq<char> {
    "# "@ + inst.name + " — exported SQL Server instance\n\nCreated by Bakehouse on "@ + date + ".\n\n- Image: `"@ + inst.image + "` (amd64 only — on Apple Silicon enable Rosetta emulation in your container runtime)\n- Data lives in the named volume `"@ + spec_service_name(inst.name) + "-data`; the database files themselves are NOT\n  included in this export. Restore your .bak files after the container is up, or back up\n  databases from Bakehouse and restore them here.\n- Start: `docker compose up -d`, then connect to `localhost:1433` as `sa`.\n"@ + spec_env_note(has_password) + "\n"@
}

/// The README of an export, dated `date`.
pub fn readme_text(instance: &Instance, has_password: bool, date: &str) -> (r: String)
    ensures
        r@ == spec_readme_text(instance@, has_password, date@),
{
    let service = service_name(instance.name.as_str());
    let mut v: Vec<char> = Vec::new();
    extend_str(&mut v, "# ");
    extend_str(&mut v, instance.name.as_str());
    extend_str(&mut v, " — exported SQL Server instance\n\nCreated by Bakehouse on ");
    extend_str(&mut v, date);
    extend_str(&mut v, ".\n\n- Image: `");
    extend_str(&mut v, instance.image.as_str());
    extend_str(&mut v, "` (amd64 only — on Apple Silicon enable Rosetta emulation in your container runtime)\n- Data lives in the named volume `");
    extend_str(&mut v, service.as_str());
    extend_str(&mut v, "-data`; the database files themselves are NOT\n  included in this export. Restore your .bak files after the container is up, or back up\n  databases from Bakehouse and restore them here.\n- Start: `docker compose up -d`, then connect to `localhost:1433` as `sa`.\n");
    extend_str(&mut v, env_note(has_password));
    extend_str(&mut v, "\n");

    string_of(v.as_slice())
}

/// The `.env` file holding the exported password.
pub fn env_file_text(password: &str) -> (r: String)
    ensures
        r@ == "MSSQL_SA_PASSWORD="@ + password@ + "\n"@,
{
    crate::text::concat3("MSSQL_SA_PASSWORD=", password, "\n")
}

/// The files of an export, in the order they are written: the compose
/// file, the `.env` when the password is included, and the README.
pub fn export_files_at(instance: &Instance, password: Option<&str>, date: &str) -> (r: Vec<(String, String)>)
    ensures
        r@.len() == if password is Some { 3nat } else { 2nat },
        r@[0].0@ == "docker-compose.yml"@,
        r@[0].1@ == spec_compose_text(instance@, password is Some),
        match password {
            Some(p) => r@[1].0@ == ".env"@ && r@[1].1@ == "MSSQL_SA_PASSWORD="@ + p@ + "\n"@,
            None => true,
        },
        r@[r@.len() - 1].0@ == "README.md"@,
        r@[r@.len() - 1].1@ == spec_readme_text(instance@, password is Some, date@),
{
    let has_password = password.is_some();
    let mut files: Vec<(String, String)> = Vec::new();
    files.push((owned("docker-compose.yml"), compose_text(instance, has_password)));
    match password {
        Some(p) => {
            files.push((owned(".env"), env_file_text(p)));
        },
        None => {},
    }
    files.push((owned("README.md"), readme_text(instance, has_password, date)));
    files
}

/// Today's date (`chrono::Utc::now()` as `%Y-%m-%d`). Which day it is
/// depends on the clock; only the shape of the text is stated.
#[verifier::external_body]
fn utc_today() -> (r: String)
    ensures
        crate::text::is_ymd(r@),
{
    chrono::Utc::now().format("%Y-%m-%d").to_string()
}

/// The files of an export dated today.
pub fn export_files(instance: &Instance, password: Option<&str>) -> (r: Vec<(String, String)>)
    ensures
        r@.len() == if password is Some { 3nat } else { 2nat },
        r@[0].0@ == "docker-compose.yml"@,
        r@[0].1@ == spec_compose_text(instance@, password is Some),
        match password {
            Some(p) => r@[1].0@ == ".env"@ && r@[1].1@ == "MSSQL_SA_PASSWORD="@ + p@ + "\n"@,
            None => true,
        },
        r@[r@.len() - 1].0@ == "README.md"@,
        exists|date: Seq<char>| crate::text::is_ymd(date) && r@[r@.len() - 1].1@ == #[trigger] spec_readme_text(instance@, password is Some, date),
{
    let date = utc_today();
    export_files_at(instance, password, date.as_str())
}

} // verus!
