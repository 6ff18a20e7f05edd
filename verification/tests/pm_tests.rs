use owl::pm::{is_header_line, parse_paru_search_output, parse_repo_name, PackageSource};

const SAMPLE_OUTPUT: &str = "aur/jet-bin 0.7.27-1 [+5 ~0.00]\n    CLI to transform between JSON, EDN and Transit, powered with a minimal query language.\naur/clang-opencl-headers-minimal-git 21.0.0_r537041.f2e62cfca5e5-1 [+5 ~0.00]\n    clang headers & include files for OpenCL, trunk version\nextra/texlive-latexextra 2025.2-2 [29.63 MiB 95.69 MiB] (texlive)\n    TeX Live - LaTeX additional packages\nextra/nim 2.0.8-1 [13.08 MiB 58.55 MiB]\n    Imperative, multi-paradigm, compiled programming language";

#[test]
fn pm_test_parse_paru_search_output() {
    let results = parse_paru_search_output(SAMPLE_OUTPUT).unwrap();
    assert_eq!(results.len(), 4);
    assert_eq!(results[0].name, "jet-bin");
    assert_eq!(results[0].repo, "aur");
    assert_eq!(results[0].source, PackageSource::Aur);
    assert_eq!(results[2].name, "texlive-latexextra");
    assert_eq!(results[2].repo, "extra");
    assert_eq!(results[2].source, PackageSource::Repo);
}

#[test]
fn package_test_parse_paru_search_output() {
    let results = parse_paru_search_output(SAMPLE_OUTPUT).unwrap();
    assert_eq!(results.len(), 4);
    assert_eq!(results[0].name, "jet-bin");
    assert_eq!(results[0].ver, "0.7.27-1");
    assert_eq!(
        results[0].description,
        "CLI to transform between JSON, EDN and Transit, powered with a minimal query language."
    );
    assert_eq!(results[3].name, "nim");
    assert_eq!(results[3].repo, "extra");
}

#[test]
fn pm_test_parse_repo_name() {
    assert_eq!(parse_repo_name("aur/package-name").unwrap(), ("aur", "package-name"));
    assert_eq!(parse_repo_name("extra/bash").unwrap(), ("extra", "bash"));
    assert!(parse_repo_name("invalid-format").is_err());
}

#[test]
fn package_test_parse_repo_name() {
    assert_eq!(parse_repo_name("aur/package-name").unwrap(), ("aur", "package-name"));
    assert_eq!(parse_repo_name("extra/bash").unwrap(), ("extra", "bash"));
    assert!(parse_repo_name("invalid-format").is_err());
}

#[test]
fn test_parse_header_line_errors() {
    let err = owl::pm::parse_header_line("aur/only-name").unwrap_err();
    assert_eq!(err, "Missing version in header line");
    let err2 = owl::pm::parse_header_line("").unwrap_err();
    assert_eq!(err2, "Empty header line");
}

#[test]
fn pm_test_is_header_line() {
    assert!(is_header_line("aur/jet-bin 0.7.27-1 [+5 ~0.00]"));
    assert!(is_header_line("extra/texlive-latexextra 2025.2-2 [29.63 MiB 95.69 MiB] (texlive)"));
    assert!(!is_header_line("    Description line"));
    assert!(!is_header_line("[some other format]"));
}

#[test]
fn package_test_is_header_line() {
    assert!(is_header_line("aur/jet-bin 0.7.27-1 [+5 ~0.00]"));
    assert!(!is_header_line("    Description line"));
    assert!(!is_header_line("[some other format]"));
}
