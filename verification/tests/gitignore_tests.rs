use navigator::gitignore::{GitignoreParser, GitignorePattern};

#[test]
fn test_simple_patterns() {
    let parser = GitignoreParser {
        patterns: vec![
            GitignorePattern {
                pattern: "target".to_string(),
                is_negation: false,
                is_directory_only: true,
                is_rooted: false,
            },
            GitignorePattern {
                pattern: "*.exe".to_string(),
                is_negation: false,
                is_directory_only: false,
                is_rooted: false,
            },
        ],
    };

    assert!(parser.is_ignored("target", true));
    assert!(!parser.is_ignored("target", false));
    assert!(parser.is_ignored("app.exe", false));
}

#[test]
fn last_match_wins() {
    let parser = GitignoreParser::from_content("build\n!build/keep\n");
    assert!(!parser.is_ignored("build/keep", false));
    assert!(parser.is_ignored("build/other", false));
}

#[test]
fn directory_only_pattern() {
    let parser = GitignoreParser::from_content("logs/\n");
    assert!(parser.is_ignored("logs", true));
    assert!(!parser.is_ignored("logs", false));
}

#[test]
fn double_wildcard() {
    let parser = GitignoreParser {
        patterns: vec![],
    };
    assert!(parser.glob_match("**/target", "target"));
    assert!(parser.glob_match("**/target", "a/b/target"));
    assert!(!parser.glob_match("**/target", "target/x"));
    assert!(parser.glob_match("src/**", "src/x/y.txt"));
    assert!(!parser.glob_match("src/**", "other/x/y.txt"));
}

#[test]
fn rooted_vs_unrooted() {
    let rooted = GitignoreParser::from_content("/Cargo.toml\n");
    assert!(rooted.is_ignored("Cargo.toml", false));
    assert!(!rooted.is_ignored("sub/Cargo.toml", false));

    let unrooted = GitignoreParser::from_content("Cargo.toml\n");
    assert!(unrooted.is_ignored("Cargo.toml", false));
    assert!(unrooted.is_ignored("sub/Cargo.toml", false));
    assert!(unrooted.is_ignored("a/b/Cargo.toml", false));
}

#[test]
fn evaluation_is_deterministic() {
    let parser = GitignoreParser::from_content("target/\n*.log\n!keep.log\n");
    for _ in 0..3 {
        assert!(parser.is_ignored("debug.log", false));
        assert!(!parser.is_ignored("keep.log", false));
        assert!(parser.is_ignored("target", true));
        assert!(!parser.is_ignored("target", false));
    }
}

#[test]
fn parse_pattern_markers() {
    let p = GitignoreParser::parse_pattern("!build/").unwrap();
    assert_eq!(p.pattern, "build");
    assert!(p.is_negation);
    assert!(p.is_directory_only);
    assert!(!p.is_rooted);

    let p = GitignoreParser::parse_pattern("/docs").unwrap();
    assert_eq!(p.pattern, "docs");
    assert!(!p.is_negation);
    assert!(!p.is_directory_only);
    assert!(p.is_rooted);

    let p = GitignoreParser::parse_pattern("*.tmp").unwrap();
    assert_eq!(p.pattern, "*.tmp");
    assert!(!p.is_negation);
    assert!(!p.is_directory_only);
    assert!(!p.is_rooted);
}

#[test]
fn parse_pattern_empty_after_markers() {
    assert!(GitignoreParser::parse_pattern("/").is_none());
    assert!(GitignoreParser::parse_pattern("!/").is_none());
    assert!(GitignoreParser::parse_pattern("!").is_none());
}

#[test]
fn from_content_skips_blanks_and_comments() {
    let parser = GitignoreParser::from_content("# a comment\n\n   \ntarget/\n  *.exe  \n#x\n");
    assert_eq!(parser.patterns.len(), 2);
    assert_eq!(parser.patterns[0].pattern, "target");
    assert!(parser.patterns[0].is_directory_only);
    assert_eq!(parser.patterns[1].pattern, "*.exe");
}

#[test]
fn from_content_empty_text() {
    let parser = GitignoreParser::from_content("");
    assert_eq!(parser.patterns.len(), 0);
    assert!(!parser.is_ignored("anything", false));
}

#[test]
fn single_star_matching() {
    let parser = GitignoreParser { patterns: vec![] };
    assert!(parser.glob_match("*.exe", "app.exe"));
    assert!(!parser.glob_match("*.exe", "app.exe.bak"));
    assert!(parser.glob_match("a*b*c", "aXXbYYc"));
    assert!(!parser.glob_match("a*b*c", "acb"));
    assert!(parser.glob_match("exact", "exact"));
    assert!(!parser.glob_match("exact", "exactly"));
}

#[test]
fn backslash_paths_are_normalized() {
    let parser = GitignoreParser::from_content("sub/deep\n");
    assert!(parser.is_ignored("sub\\deep", false));
}

#[test]
fn matches_pattern_segments() {
    let parser = GitignoreParser { patterns: vec![] };
    assert!(parser.matches_pattern("node_modules", "a/node_modules/b", false));
    assert!(!parser.matches_pattern("node_modules", "a/node_modules/b", true));
}
