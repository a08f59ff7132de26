use todoozy::fs::FileType::{
    Bash, Cpp, Csharp, Css, Dockerfile, Go, Html, Java, JavaScript, Kotlin, Ksh, Less, Makefile,
    Markdown, Php, Protobuf, Python, Ruby, Rust, Scss, Sh, Sql, Swift, Terraform, Todoozy,
    Typescript, Zsh, C, YAML,
};
use todoozy::fs::{filetype_from_shebang, get_filetype, FileType, WalkConfig};

#[test]
fn test_get_extension_from_filename() {
    assert_eq!(get_filetype("dir/test.tdz"), Some(Todoozy));
    assert_eq!(get_filetype("test.tdz"), Some(Todoozy));
    assert_eq!(get_filetype("dir/.tdz"), Some(Todoozy));
    assert_eq!(get_filetype("./.tdz"), Some(Todoozy));
    assert_eq!(get_filetype(".tdz"), Some(Todoozy));
    assert_eq!(get_filetype("test.rs"), Some(Rust));
    assert_eq!(get_filetype("test.go"), Some(Go));
    assert_eq!(get_filetype("test.md"), Some(Markdown));
    assert_eq!(get_filetype("test.py"), Some(Python));
    assert_eq!(get_filetype("test.tf"), Some(Terraform));
    assert_eq!(get_filetype("test.yaml"), Some(YAML));
    assert_eq!(get_filetype("test.yml"), Some(YAML));
    assert_eq!(get_filetype("test.proto"), Some(Protobuf));
    assert_eq!(get_filetype("test.mk"), Some(Makefile));
    assert_eq!(get_filetype("Makefile"), Some(Makefile));
    assert_eq!(get_filetype("makefile"), Some(Makefile));
    assert_eq!(get_filetype("GNUmakefile"), Some(Makefile));
    assert_eq!(get_filetype("Dockerfile"), Some(Dockerfile));
    assert_eq!(get_filetype("test.dockerfile"), Some(Dockerfile));
    assert_eq!(get_filetype("test"), None);
}

#[test]
fn test_get_filetype_from_name() {
    assert_eq!(get_filetype("dir/test.tdz"), Some(Todoozy));
    assert_eq!(get_filetype("test.tdz"), Some(Todoozy));
    assert_eq!(get_filetype("dir/.tdz"), Some(Todoozy));
    assert_eq!(get_filetype("./.tdz"), Some(Todoozy));
    assert_eq!(get_filetype(".tdz"), Some(Todoozy));
    assert_eq!(get_filetype("test.rs"), Some(Rust));
    assert_eq!(get_filetype("test.go"), Some(Go));
    assert_eq!(get_filetype("test.md"), Some(Markdown));
    assert_eq!(get_filetype("test.java"), Some(Java));
    assert_eq!(get_filetype("test.kt"), Some(Kotlin));
    assert_eq!(get_filetype("test.kts"), Some(Kotlin));
    assert_eq!(get_filetype("test.rb"), Some(Ruby));
    assert_eq!(get_filetype("test.py"), Some(Python));
    assert_eq!(get_filetype("test.tf"), Some(Terraform));
    assert_eq!(get_filetype("test.css"), Some(Css));
    assert_eq!(get_filetype("test.scss"), Some(Scss));
    assert_eq!(get_filetype("test.less"), Some(Less));
    assert_eq!(get_filetype("test.yaml"), Some(YAML));
    assert_eq!(get_filetype("test.yml"), Some(YAML));
    assert_eq!(get_filetype("test.php"), Some(Php));
    assert_eq!(get_filetype("test.proto"), Some(Protobuf));
    assert_eq!(get_filetype("test.sql"), Some(Sql));
    assert_eq!(get_filetype("test.mk"), Some(Makefile));
    assert_eq!(get_filetype("Makefile"), Some(Makefile));
    assert_eq!(get_filetype("makefile"), Some(Makefile));
    assert_eq!(get_filetype("GNUmakefile"), Some(Makefile));
    assert_eq!(get_filetype("Dockerfile"), Some(Dockerfile));
    assert_eq!(get_filetype("test.dockerfile"), Some(Dockerfile));
    assert_eq!(get_filetype("test.sh"), Some(Sh));
    assert_eq!(get_filetype("test.swift"), Some(Swift));
    assert_eq!(get_filetype("test.bash"), Some(Bash));
    assert_eq!(get_filetype("test.zsh"), Some(Zsh));
    assert_eq!(get_filetype("test.ksh"), Some(Ksh));
    assert_eq!(get_filetype("test.ts"), Some(Typescript));
    assert_eq!(get_filetype("test.tsx"), Some(Typescript));
    assert_eq!(get_filetype("test.js"), Some(JavaScript));
    assert_eq!(get_filetype("test.jsx"), Some(JavaScript));
    assert_eq!(get_filetype("test.c"), Some(C));
    assert_eq!(get_filetype("test.h"), Some(C));
    assert_eq!(get_filetype("test.cc"), Some(Cpp));
    assert_eq!(get_filetype("test.cpp"), Some(Cpp));
    assert_eq!(get_filetype("test.cxx"), Some(Cpp));
    assert_eq!(get_filetype("test.hh"), Some(Cpp));
    assert_eq!(get_filetype("test.hpp"), Some(Cpp));
    assert_eq!(get_filetype("test.hxx"), Some(Cpp));
    assert_eq!(get_filetype("test.cs"), Some(Csharp));
    assert_eq!(get_filetype("test.html"), Some(Html));
    assert_eq!(get_filetype("test.htm"), Some(Html));
    assert_eq!(get_filetype("test"), None);
    assert_eq!(get_filetype("script"), None);
    assert_eq!(get_filetype("test.unknown"), None);
}

#[test]
fn trailing_separators_and_dots_are_skipped() {
    assert_eq!(get_filetype("src/main.rs/"), Some(FileType::Rust));
    assert_eq!(get_filetype("src/main.rs/."), Some(FileType::Rust));
    assert_eq!(get_filetype("src/.."), None);
    assert_eq!(get_filetype("/"), None);
    assert_eq!(get_filetype(""), None);
}

#[test]
fn unknown_extension_falls_back_to_the_name_but_known_one_wins() {
    assert_eq!(get_filetype("Makefile.bak"), None);
    assert_eq!(get_filetype("Dockerfile.yml"), Some(FileType::YAML));
}

#[test]
fn shebangs_name_shells() {
    assert_eq!(filetype_from_shebang("#!/bin/bash\n"), Some(FileType::Bash));
    assert_eq!(filetype_from_shebang("#!/usr/bin/env zsh\n"), Some(FileType::Zsh));
    assert_eq!(filetype_from_shebang("#!/bin/ksh"), Some(FileType::Ksh));
    assert_eq!(filetype_from_shebang("#!/bin/sh\n"), Some(FileType::Sh));
    assert_eq!(filetype_from_shebang("#!/usr/bin/env sh\n"), Some(FileType::Sh));
    assert_eq!(filetype_from_shebang("#!/usr/bin/env python3\n"), None);
    assert_eq!(filetype_from_shebang("# bash\n"), None);
}

#[test]
fn supported_pathspecs_cover_every_extension() {
    let specs = FileType::supported_pathspecs();
    assert_eq!(specs.len(), 45);
    assert_eq!(specs[0], "*.bash");
    assert_eq!(specs[44], ".tdz");
    for spec in specs.iter() {
        if let Some(ext) = spec.strip_prefix("*.") {
            assert!(get_filetype(&format!("x.{}", ext)).is_some(), "{}", spec);
        } else {
            assert!(get_filetype(spec).is_some(), "{}", spec);
        }
    }
}

#[test]
fn walk_config_keeps_its_arguments() {
    let exclude = vec!["vendor".to_string(), "node_modules".to_string()];
    let config = WalkConfig::new("./", Some(&exclude));
    assert_eq!(config.root(), "./");
    assert_eq!(config.exclude(), &Some(exclude.clone()));
    let config = WalkConfig::new("src", None);
    assert_eq!(config.exclude(), &None);
}

#[test]
fn pathspecs_and_file_types_agree() {
    let specs = FileType::supported_pathspecs();
    for s in &specs {
        match s.strip_prefix("*.") {
            Some(x) => assert!(get_filetype(&format!("dir/f.{}", x)).is_some(), "{}", s),
            None => assert!(get_filetype(&format!("dir/{}", s)).is_some(), "{}", s),
        }
    }
    for path in ["a.rs", "b.tsx", "Makefile", "x/.tdz", "y.yml", "GNUmakefile"] {
        assert!(get_filetype(path).is_some());
        let name = path.rsplit('/').next().unwrap();
        let by_ext = name
            .rfind('.')
            .filter(|d| *d > 0)
            .map(|d| specs.contains(&format!("*.{}", &name[d + 1..]).as_str()))
            .unwrap_or(false);
        assert!(by_ext || specs.contains(&name), "{}", path);
    }
    assert!(get_filetype("notes.txt").is_none());
}
