use compiler_core::manifest::{
    Base16Checksum, Manifest, ManifestPackage, ManifestPackageSource, PackageVersion, Requirement,
};

fn value_to_package(p: &toml::Value) -> ManifestPackage {
    let name = p.get("name").unwrap().as_str().unwrap().to_string();
    let parts: Vec<u64> = p
        .get("version")
        .unwrap()
        .as_str()
        .unwrap()
        .split('.')
        .map(|x| x.parse().unwrap())
        .collect();
    let build_tools = p
        .get("build_tools")
        .unwrap()
        .as_array()
        .unwrap()
        .iter()
        .map(|t| t.as_str().unwrap().to_string())
        .collect();
    let otp_app = p.get("otp_app").map(|a| a.as_str().unwrap().to_string());
    let requirements = p
        .get("requirements")
        .unwrap()
        .as_array()
        .unwrap()
        .iter()
        .map(|t| t.as_str().unwrap().to_string())
        .collect();
    let source = match p.get("source").unwrap().as_str().unwrap() {
        "hex" => ManifestPackageSource::Hex {
            outer_checksum: Base16Checksum(
                base16::decode(p.get("outer_checksum").unwrap().as_str().unwrap()).unwrap(),
            ),
        },
        "git" => ManifestPackageSource::Git {
            repo: p.get("repo").unwrap().as_str().unwrap().to_string(),
            commit: p.get("commit").unwrap().as_str().unwrap().to_string(),
        },
        "local" => ManifestPackageSource::Local {
            path: p.get("path").unwrap().as_str().unwrap().to_string(),
        },
        other => panic!("unknown source {}", other),
    };
    ManifestPackage {
        name,
        version: PackageVersion::new(parts[0], parts[1], parts[2]),
        build_tools,
        otp_app,
        requirements,
        source,
    }
}

fn value_to_requirement(v: &toml::Value) -> Requirement {
    if let Some(version) = v.get("version") {
        Requirement::hex(version.as_str().unwrap())
    } else if let Some(path) = v.get("path") {
        Requirement::path(path.as_str().unwrap())
    } else {
        Requirement::git(v.get("git").unwrap().as_str().unwrap())
    }
}

fn value_to_manifest(v: &toml::Value) -> Manifest {
    let packages = v
        .get("packages")
        .unwrap()
        .as_array()
        .unwrap()
        .iter()
        .map(value_to_package)
        .collect();
    let requirements = v
        .get("requirements")
        .unwrap()
        .as_table()
        .unwrap()
        .iter()
        .map(|(k, rv)| (k.clone(), value_to_requirement(rv)))
        .collect();
    Manifest { requirements, packages }
}

#[test]
fn manifest_toml_format() {
    let mut manifest = Manifest {
        requirements: vec![
            ("zzz".into(), Requirement::hex("> 0.0.0")),
            ("aaa".into(), Requirement::hex("> 0.0.0")),
            (
                "awsome_local2".into(),
                Requirement::git("https://github.com/gleam-lang/gleam.git"),
            ),
            ("awsome_local1".into(), Requirement::path("../path/to/package")),
            ("gleam_stdlib".into(), Requirement::hex("~> 0.17")),
            ("gleeunit".into(), Requirement::hex("~> 0.1")),
        ],
        packages: vec![
            ManifestPackage {
                name: "gleam_stdlib".into(),
                version: PackageVersion::new(0, 17, 1),
                build_tools: vec!["gleam".into()],
                otp_app: None,
                requirements: vec![],
                source: ManifestPackageSource::Hex {
                    outer_checksum: Base16Checksum(vec![1, 22]),
                },
            },
            ManifestPackage {
                name: "aaa".into(),
                version: PackageVersion::new(0, 4, 0),
                build_tools: vec!["rebar3".into(), "make".into()],
                otp_app: Some("aaa_app".into()),
                requirements: vec!["zzz".into(), "gleam_stdlib".into()],
                source: ManifestPackageSource::Hex {
                    outer_checksum: Base16Checksum(vec![3, 22]),
                },
            },
            ManifestPackage {
                name: "zzz".into(),
                version: PackageVersion::new(0, 4, 0),
                build_tools: vec!["mix".into()],
                otp_app: None,
                requirements: vec![],
                source: ManifestPackageSource::Hex {
                    outer_checksum: Base16Checksum(vec![3, 22]),
                },
            },
            ManifestPackage {
                name: "awsome_local2".into(),
                version: PackageVersion::new(1, 2, 3),
                build_tools: vec!["gleam".into()],
                otp_app: None,
                requirements: vec![],
                source: ManifestPackageSource::Git {
                    repo: "https://github.com/gleam-lang/gleam.git".into(),
                    commit: "bd9fe02f72250e6a136967917bcb1bdccaffa3c8".into(),
                },
            },
            ManifestPackage {
                name: "awsome_local1".into(),
                version: PackageVersion::new(1, 2, 3),
                build_tools: vec!["gleam".into()],
                otp_app: None,
                requirements: vec![],
                source: ManifestPackageSource::Local {
                    path: "/home/louis/packages/path/to/package".into(),
                },
            },
            ManifestPackage {
                name: "gleeunit".into(),
                version: PackageVersion::new(0, 4, 0),
                build_tools: vec!["gleam".into()],
                otp_app: None,
                requirements: vec!["gleam_stdlib".into()],
                source: ManifestPackageSource::Hex {
                    outer_checksum: Base16Checksum(vec![3, 46]),
                },
            },
        ],
    };
    let buffer = manifest.to_toml();
    assert_eq!(
        buffer,
        r#"# This file was generated by Gleam
# You typically do not need to edit this file

packages = [
  { name = "aaa", version = "0.4.0", build_tools = ["rebar3", "make"], requirements = ["zzz", "gleam_stdlib"], otp_app = "aaa_app", source = "hex", outer_checksum = "0316" },
  { name = "awsome_local1", version = "1.2.3", build_tools = ["gleam"], requirements = [], source = "local", path = "/home/louis/packages/path/to/package" },
  { name = "awsome_local2", version = "1.2.3", build_tools = ["gleam"], requirements = [], source = "git", repo = "https://github.com/gleam-lang/gleam.git", commit = "bd9fe02f72250e6a136967917bcb1bdccaffa3c8" },
  { name = "gleam_stdlib", version = "0.17.1", build_tools = ["gleam"], requirements = [], source = "hex", outer_checksum = "0116" },
  { name = "gleeunit", version = "0.4.0", build_tools = ["gleam"], requirements = ["gleam_stdlib"], source = "hex", outer_checksum = "032E" },
  { name = "zzz", version = "0.4.0", build_tools = ["mix"], requirements = [], source = "hex", outer_checksum = "0316" },
]

[requirements]
aaa = { version = "> 0.0.0" }
awsome_local1 = { path = "../path/to/package" }
awsome_local2 = { git = "https://github.com/gleam-lang/gleam.git" }
gleam_stdlib = { version = "~> 0.17" }
gleeunit = { version = "~> 0.1" }
zzz = { version = "> 0.0.0" }
"#
    );
    let value: toml::Value = toml::from_str(&buffer).unwrap();
    let deserialised = value_to_manifest(&value);
    manifest.packages.sort_by(|a, b| a.name.cmp(&b.name));
    manifest.requirements.sort_by(|a, b| a.0.cmp(&b.0));
    assert_eq!(deserialised, manifest);
}

#[test]
fn checksum_renders_uppercase_hex() {
    assert_eq!(Base16Checksum(vec![]).to_string(), "");
    assert_eq!(Base16Checksum(vec![0]).to_string(), "00");
    assert_eq!(Base16Checksum(vec![1, 22]).to_string(), "0116");
    assert_eq!(Base16Checksum(vec![0xde, 0xad, 0xbe, 0xef]).to_string(), "DEADBEEF");
}

#[test]
fn version_renders_dotted_decimal() {
    assert_eq!(PackageVersion::new(0, 17, 1).to_string(), "0.17.1");
    assert_eq!(PackageVersion::new(12, 0, 305).to_string(), "12.0.305");
}

#[test]
fn requirement_inline_tables() {
    assert_eq!(Requirement::hex("~> 1.0").to_toml(), "{ version = \"~> 1.0\" }");
    assert_eq!(Requirement::path("../p").to_toml(), "{ path = \"../p\" }");
    assert_eq!(Requirement::git("https://example.com/r.git").to_toml(), "{ git = \"https://example.com/r.git\" }");
}

#[test]
fn with_build_tools_replaces_tools() {
    let p = ManifestPackage::default().with_build_tools(&["rebar3", "make"]);
    assert_eq!(p.build_tools, vec!["rebar3".to_string(), "make".to_string()]);
    assert!(p.is_hex());
    assert!(!p.is_local());
}

#[test]
fn package_source_predicates() {
    let local = ManifestPackage {
        source: ManifestPackageSource::Local { path: "/tmp/x".into() },
        ..ManifestPackage::default()
    };
    assert!(local.is_local());
    assert!(!local.is_hex());
    let git = ManifestPackage {
        source: ManifestPackageSource::Git { repo: "r".into(), commit: "c".into() },
        ..ManifestPackage::default()
    };
    assert!(!git.is_hex());
    assert!(!git.is_local());
}
