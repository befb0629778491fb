//! What is told of an extraction or a build.
use gcdgold::report::{
    format_build_summary, format_extraction_summary, format_recovery_warning,
    format_recovery_warnings, format_sha1_warning, format_sha1_warnings, has_track_sha1_mismatch,
    resolve_output_path, BuildReport, ExtractReport, RecoveryCategory, RecoveryRange,
    RecoveryWarning, Sha1Mismatch, Sha1Target,
};

#[test]
fn implicit_outputs_use_only_the_input_filename_in_the_current_directory() {
    for (input, extension, kind, expected) in [
        ("/library/disc.bin", "yaml", "image", "disc.yaml"),
        ("library/disc.bin", "yaml", "image", "disc.yaml"),
        ("disc.bin", "yaml", "image", "disc.yaml"),
        (
            "/library/archive.disc.bin",
            "yaml",
            "image",
            "archive.disc.yaml",
        ),
        ("/projects/disc.yaml", "bin", "manifest", "disc.bin"),
        ("projects/disc.yaml", "bin", "manifest", "disc.bin"),
        ("disc.yaml", "bin", "manifest", "disc.bin"),
        (
            "/projects/archive.disc.yaml",
            "bin",
            "manifest",
            "archive.disc.bin",
        ),
    ] {
        assert_eq!(
            resolve_output_path(None, input, extension, kind).unwrap(),
            expected.to_owned()
        );
    }
}

#[test]
fn explicit_outputs_are_unchanged_and_unusable_implicit_inputs_are_rejected() {
    let explicit = String::from("/custom/output.yaml");
    assert_eq!(
        resolve_output_path(Some(explicit.clone()), "/", "yaml", "image").unwrap(),
        explicit
    );

    let error = resolve_output_path(None, "/", "yaml", "image")
        .unwrap_err()
        .message();
    assert_eq!(
        error,
        "image path / has no file name for deriving the default output"
    );
}

#[test]
fn success_summaries_are_multiline_and_include_output_paths() {
    let extract_report = ExtractReport {
        sectors: 248_051,
        sha1: "782c50827bf4cf8fe5530b64b188a2d43c75b0e0".to_owned(),
        recovery_warnings: Vec::new(),
    };
    let extraction = format_extraction_summary(
        &extract_report,
        "'98 Koushien - Koukou Yakyuu Simulation (Japan).yaml",
    );
    assert_eq!(
        extraction,
        "Extraction complete\n  Sectors: 248051\n  Source SHA-1: 782c50827bf4cf8fe5530b64b188a2d43c75b0e0\n  Recovery warnings: 0\n  Manifest: '98 Koushien - Koukou Yakyuu Simulation (Japan).yaml"
    );

    let build_report = BuildReport {
        sectors: 248_051,
        sha1: "782c50827bf4cf8fe5530b64b188a2d43c75b0e0".to_owned(),
        sha1_mismatches: Vec::new(),
    };
    let build = format_build_summary(
        &build_report,
        "'98 Koushien - Koukou Yakyuu Simulation (Japan).bin",
    );
    assert_eq!(
        build,
        "Build complete\n  Sectors: 248051\n  Image SHA-1: 782c50827bf4cf8fe5530b64b188a2d43c75b0e0\n  SHA-1 warnings: 0\n  Image: '98 Koushien - Koukou Yakyuu Simulation (Japan).bin"
    );
    assert!(!extraction.contains(';'));
    assert!(!build.contains(';'));
}

#[test]
fn recovery_warnings_format_single_and_ranged_locations() {
    let single = RecoveryWarning {
        category: RecoveryCategory::MalformedSystemArea,
        ranges: vec![RecoveryRange {
            first_lba: -138,
            last_lba: -138,
            first_msf: "00:00:12".to_owned(),
            last_msf: "00:00:12".to_owned(),
        }],
        path: None,
        description: "recovered malformed framing".to_owned(),
    };
    assert_eq!(
        format_recovery_warning(&single),
        "Recovery warning\n  Category: malformed-system-area\n  Location: LBA -138 (00:00:12)\n  Details: recovered malformed framing"
    );

    let ranged = RecoveryWarning {
        category: RecoveryCategory::DirectoryBufferResidue,
        ranges: vec![RecoveryRange {
            first_lba: 24,
            last_lba: 26,
            first_msf: "00:02:24".to_owned(),
            last_msf: "00:02:26".to_owned(),
        }],
        path: Some("DATA/PLAYER'S FILE.BIN".to_owned()),
        description: "retained directory bytes".to_owned(),
    };
    assert_eq!(
        format_recovery_warning(&ranged),
        "Recovery warning\n  Category: directory-buffer-residue\n  Location: LBAs 24-26 (00:02:24-00:02:26)\n  Path: DATA/PLAYER'S FILE.BIN\n  Details: retained directory bytes"
    );

    let blocks = format_recovery_warnings(&[single, ranged]);
    assert_eq!(blocks.matches("\n\n").count(), 1);
    assert!(!blocks.contains(';'));
}

#[test]
fn sha1_mismatch_blocks_name_every_target_and_both_hashes() {
    let expected = "1111111111111111111111111111111111111111";
    let actual = "2222222222222222222222222222222222222222";
    let targets = [
        (Sha1Target::Track, "track"),
        (
            Sha1Target::SystemArea {
                path: "disc.system".to_owned(),
            },
            "system area disc.system",
        ),
        (
            Sha1Target::Asset {
                path: "DATA/PLAYER'S FILE.BIN".to_owned(),
            },
            "asset DATA/PLAYER'S FILE.BIN",
        ),
    ];
    let mismatches = targets
        .into_iter()
        .map(|(target, _)| Sha1Mismatch {
            target,
            expected: expected.to_owned(),
            actual: actual.to_owned(),
        })
        .collect::<Vec<_>>();
    for (mismatch, target_text) in mismatches.iter().zip([
        "track",
        "system area disc.system",
        "asset DATA/PLAYER'S FILE.BIN",
    ]) {
        assert_eq!(
            format_sha1_warning(mismatch),
            format!(
                "SHA-1 mismatch\n  Target: {target_text}\n  Expected: {expected}\n  Actual: {actual}"
            )
        );
    }
    let blocks = format_sha1_warnings(&mismatches);
    assert_eq!(blocks.matches("\n\n").count(), 2);
    assert!(!blocks.contains(';'));
}

#[test]
fn only_track_sha1_mismatches_change_cli_success() {
    let asset = Sha1Mismatch {
        target: Sha1Target::Asset {
            path: "FILE.BIN".to_owned(),
        },
        expected: "1".repeat(40),
        actual: "2".repeat(40),
    };
    assert!(!has_track_sha1_mismatch(&[]));
    assert!(!has_track_sha1_mismatch(std::slice::from_ref(&asset)));

    let track = Sha1Mismatch {
        target: Sha1Target::Track,
        expected: "1".repeat(40),
        actual: "2".repeat(40),
    };
    assert!(has_track_sha1_mismatch(&[asset, track]));
}

#[test]
fn default_outputs_drop_only_the_last_extension() {
    for (input, expected) in [
        ("disc", "disc.yaml"),
        (".disc", ".disc.yaml"),
        ("dir/disc.bin/", "disc.yaml"),
        ("dir/./disc.bin/.", "disc.yaml"),
    ] {
        assert_eq!(
            resolve_output_path(None, input, "yaml", "image").unwrap(),
            expected
        );
    }
    for input in ["", "..", "dir/.."] {
        assert!(resolve_output_path(None, input, "yaml", "image").is_err());
    }
}
