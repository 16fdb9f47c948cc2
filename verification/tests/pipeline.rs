use sonnets::extract::{extract_blocks, ExtractError, BLOCK_SEPARATOR, END_MARKER, START_MARKER};
use sonnets::parse::{examine_block, parse_block};
use sonnets::record::SonnetRecord;
use sonnets::select::{parse_blocks, select_sonnets, Selection};

fn sonnet(number: u8, lines: &[&str]) -> SonnetRecord {
    SonnetRecord { number, lines: lines.iter().map(|line| line.to_string()).collect() }
}

fn document(region: &str) -> String {
    format!("Front matter\n\n{}{}{}\nBack matter", START_MARKER, region, END_MARKER)
}

/// The same selection, written with the string functions of std.
fn selection_by_std(document: &str) -> Result<Selection, ExtractError> {
    let (_, rest) = document.split_once(START_MARKER).ok_or(ExtractError::MissingStartMarker)?;
    let (region, _) = rest.split_once(END_MARKER).ok_or(ExtractError::MissingEndMarker)?;
    let mut blocks: Vec<&str> = region.split("\n\n").map(|segment| segment.trim()).collect();
    blocks.pop();
    let mut sonnets = Vec::new();
    let mut rejected = Vec::new();
    for block in blocks {
        let header = block.split("\n").next().unwrap_or("").trim();
        match header.parse::<u8>() {
            Ok(number) => sonnets.push(SonnetRecord {
                number,
                lines: block.split("\n").skip(1).map(|line| line.to_string()).collect(),
            }),
            Err(_) => {
                sonnets.push(SonnetRecord { number: 0, lines: vec![] });
                rejected.push(header.to_string());
            },
        }
    }
    Ok(Selection { sonnets, rejected })
}

fn regions_over(alphabet: &[char], max_len: usize) -> Vec<String> {
    let mut all = vec![String::new()];
    let mut last = vec![String::new()];
    for _ in 0..max_len {
        let mut next = Vec::new();
        for prefix in &last {
            for c in alphabet {
                let mut longer = prefix.clone();
                longer.push(*c);
                next.push(longer);
            }
        }
        all.extend(next.iter().cloned());
        last = next;
    }
    all
}

#[test]
fn markers_are_the_documented_texts() {
    assert_eq!(START_MARKER, "THE SONNETS\n\nby William Shakespeare\n\n\n\n");
    assert_eq!(END_MARKER, "THE END");
    assert_eq!(BLOCK_SEPARATOR, "\n\n");
}

#[test]
fn block_count_is_segment_count_less_one() {
    for (region, segments) in [
        ("", 1usize),
        ("1\na", 1),
        ("1\na\n\n", 2),
        ("1\na\n\n2\nb", 2),
        ("1\na\n\n2\nb\n\n", 3),
        ("1\na\n\n2\nb\n\n3\nc\n\n4\nd\n\n", 5),
        ("\n\n\n\n\n\n", 4),
    ] {
        assert_eq!(region.split("\n\n").count(), segments);
        let blocks = extract_blocks(&document(region)).unwrap();
        assert_eq!(blocks.len(), segments - 1, "{:?}", region);
        assert_eq!(blocks.is_empty(), !region.contains("\n\n"));
    }
}

#[test]
fn blocks_are_trimmed_and_in_order() {
    let region = "  1\nfirst line  \n\n\n\t2\n  indented\nlast \n\n   ";
    assert_eq!(
        extract_blocks(&document(region)),
        Ok(vec!["1\nfirst line".to_string(), "2\n  indented\nlast".to_string()])
    );
}

#[test]
fn residual_text_after_the_last_separator_is_dropped() {
    let region = "1\na\n\n2\nb\n\n3\nnever closed by a blank line";
    let selection = select_sonnets(&document(region)).unwrap();
    assert_eq!(selection.sonnets, vec![sonnet(1, &["a"]), sonnet(2, &["b"])]);
}

#[test]
fn only_the_first_markers_count() {
    let text = format!(
        "{}1\na\n\n{}2\nb\n\n{}3\nc\n\n{}",
        START_MARKER, END_MARKER, START_MARKER, END_MARKER
    );
    assert_eq!(extract_blocks(&text), Ok(vec!["1\na".to_string()]));
    let nested = format!("{}1\na\n\n{}2\nb\n\n{}", START_MARKER, START_MARKER, END_MARKER);
    assert_eq!(
        extract_blocks(&nested),
        Ok(vec![
            "1\na".to_string(),
            "THE SONNETS".to_string(),
            "by William Shakespeare".to_string(),
            "".to_string(),
            "2\nb".to_string(),
        ])
    );
}

#[test]
fn start_marker_must_match_to_the_letter() {
    let text = "THE SONNETS\n\nby William Shakespeare\n\n\n1\na\n\nTHE END";
    assert_eq!(extract_blocks(text), Err(ExtractError::MissingStartMarker));
    let text = "THE SONNETS\r\n\r\nby William Shakespeare\r\n\r\n\r\n\r\n1\r\na\r\n\r\nTHE END";
    assert_eq!(extract_blocks(text), Err(ExtractError::MissingStartMarker));
}

#[test]
fn number_zero_differs_from_the_sentinel_only_in_the_report() {
    assert_eq!(examine_block("0"), (sonnet(0, &[]), None));
    assert_eq!(examine_block("zero"), (sonnet(0, &[]), Some("zero".to_string())));
}

#[test]
fn header_is_trimmed_and_lines_are_not() {
    assert_eq!(
        parse_block(" \t18 \r\n  Shall I compare thee \n\n to a summer's day?\r"),
        sonnet(18, &["  Shall I compare thee ", "", " to a summer's day?\r"])
    );
    assert_eq!(parse_block("18"), sonnet(18, &[]));
    assert_eq!(parse_block("18\n"), sonnet(18, &[""]));
    assert_eq!(parse_block("+18\nx"), sonnet(18, &["x"]));
    assert_eq!(parse_block("018\nx"), sonnet(18, &["x"]));
    assert_eq!(parse_block("255\nx"), sonnet(255, &["x"]));
}

#[test]
fn every_numeral_up_to_255_heads_a_block() {
    for number in 0..=255u8 {
        let block = format!("{}\nfirst\nsecond", number);
        assert_eq!(examine_block(&block), (sonnet(number, &["first", "second"]), None));
    }
}

#[test]
fn header_out_of_range_gives_sentinel() {
    assert_eq!(examine_block("256\nx"), (sonnet(0, &[]), Some("256".to_string())));
    assert_eq!(examine_block("-1\nx"), (sonnet(0, &[]), Some("-1".to_string())));
    assert_eq!(examine_block(" 1 2 \nx"), (sonnet(0, &[]), Some("1 2".to_string())));
}

#[test]
fn lines_keep_characters_outside_ascii() {
    assert_eq!(
        parse_block("7\nLo, in the orient — “when” the gracious light\n日本語 naïve"),
        sonnet(7, &["Lo, in the orient — “when” the gracious light", "日本語 naïve"])
    );
    let text = format!("é{}\u{3000}7\né\u{2003}ü\n\n{}ß", START_MARKER, END_MARKER);
    assert_eq!(select_sonnets(&text).unwrap().sonnets, vec![sonnet(7, &["é\u{2003}ü"])]);
}

#[test]
fn rejected_headers_come_in_document_order() {
    let region = "1\na\n\nII\nb\n\n3\nc\n\n\n\n?? \nd\n\n";
    let selection = select_sonnets(&document(region)).unwrap();
    assert_eq!(
        selection.sonnets,
        vec![sonnet(1, &["a"]), sonnet(0, &[]), sonnet(3, &["c"]), sonnet(0, &[]), sonnet(0, &[])]
    );
    assert_eq!(selection.rejected, vec!["II".to_string(), "".to_string(), "??".to_string()]);
}

#[test]
fn duplicate_numbers_are_kept() {
    let selection = select_sonnets(&document("5\na\n\n5\nb\n\n")).unwrap();
    assert_eq!(selection.sonnets, vec![sonnet(5, &["a"]), sonnet(5, &["b"])]);
}

#[test]
fn parse_blocks_gives_one_record_for_each_block() {
    let blocks = vec!["1\na\nb".to_string(), "x".to_string(), "".to_string(), "3".to_string()];
    let selection = parse_blocks(&blocks);
    assert_eq!(selection.sonnets.len(), blocks.len());
    for (block, record) in blocks.iter().zip(&selection.sonnets) {
        assert_eq!(*record, parse_block(block));
    }
    assert_eq!(selection.rejected, vec!["x".to_string(), "".to_string()]);
    assert_eq!(parse_blocks(&vec![]), Selection { sonnets: vec![], rejected: vec![] });
}

#[test]
fn selection_is_parse_after_extract() {
    let text = document("1\na\n\nbad\nb\n\n");
    let blocks = extract_blocks(&text).unwrap();
    assert_eq!(select_sonnets(&text), Ok(parse_blocks(&blocks)));
}

#[test]
fn selection_agrees_with_std_on_small_regions() {
    for region in regions_over(&['1', 'x', '\n', ' '], 7) {
        let text = document(&region);
        assert_eq!(select_sonnets(&text), selection_by_std(&text), "{:?}", region);
    }
}

#[test]
fn selection_agrees_with_std_around_the_markers() {
    let parts = ["", "x", START_MARKER, END_MARKER, "\n\n", "1\na\n\n", "THE ", "THE SONNETS\n\n"];
    for a in parts {
        for b in parts {
            for c in parts {
                for d in parts {
                    let text = format!("{}{}{}{}", a, b, c, d);
                    assert_eq!(select_sonnets(&text), selection_by_std(&text), "{:?}", text);
                }
            }
        }
    }
}
