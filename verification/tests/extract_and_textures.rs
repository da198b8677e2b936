use gm2tiled::extract::utmt_output_indicates_failure;

#[test]
fn utmt_failure_marker_detection_catches_script_errors() {
    assert!(utmt_output_indicates_failure(
        "Microsoft.CodeAnalysis.Scripting.CompilationErrorException: boom",
        ""
    ));
    assert!(utmt_output_indicates_failure("", "Unhandled exception: bad"));
    assert!(utmt_output_indicates_failure(
        "",
        "error CS0656: Missing compiler required member"
    ));
    assert!(!utmt_output_indicates_failure("gm2tiled extraction complete.", ""));
}
