use marisjs::splice::splice_out_spans;

fn span_of(src: &str, part: &str, base: u32) -> (u32, u32) {
    let at = src.find(part).unwrap() as u32;
    (base + at, base + at + part.len() as u32)
}

fn cut(src: &str, base: u32, spans: &[(u32, u32)]) -> String {
    String::from_utf8(splice_out_spans(&src.as_bytes().to_vec(), base, &spans.to_vec())).unwrap()
}

#[test]
fn cuts_annotations_in_any_order() {
    let src = "function f<T>(a: number, ...rest: T[]): string { return a; }";
    let base = 100;
    let spans = vec![
        span_of(src, ": string", base),
        span_of(src, "<T>", base),
        span_of(src, ": number", base),
        span_of(src, ": T[]", base),
    ];
    assert_eq!(cut(src, base, &spans), "function f(a, ...rest) { return a; }");
}

#[test]
fn no_spans_keeps_the_source() {
    assert_eq!(cut("const x = 1;", 7, &[]), "const x = 1;");
}

#[test]
fn duplicate_starts_keep_the_first_and_outside_spans_are_skipped() {
    let src = "const a: number = 1;";
    let base = 10;
    let (lo, hi) = span_of(src, ": number", base);
    // Same start, shorter span given first: only it is cut.
    assert_eq!(cut(src, base, &[(lo, lo + 1), (lo, hi)]), "const a number = 1;");
    // A span before the snippet is ignored; one running past its end is clipped.
    assert_eq!(cut(src, base, &[(2, 5), (base + 17, base + 40)]), "const a: number =");
    // Overlapping spans: the one starting inside an earlier cut is skipped.
    assert_eq!(cut(src, base, &[(lo, hi), (lo + 2, hi + 2)]), "const a = 1;");
}
