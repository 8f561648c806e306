use p2m::quality::{check_quality, detect_encoding_issues, is_cid_garbage, is_garbage_text};

#[test]
fn garbage_text_detected() {
    let garbage = ",&<X ~%5&8-!A ~*(!,-!U (/#!U X ~#/=U 9/%*(!U !(  X \
                   (%U-(-/ V %&((8-#&&< *,(6--< %5&8-!( (,(/! #/<5U X \
                   º&( >/5 /5&(#(8-!5 *,(6--( *,%@/-A W";
    assert!(is_garbage_text(garbage));
}

#[test]
fn normal_text_not_garbage() {
    let normal = "This is a normal paragraph with words and sentences that \
                  contains enough characters to pass the threshold.";
    assert!(!is_garbage_text(normal));
}

#[test]
fn cyrillic_not_garbage() {
    let cyrillic = "Роботизированные технологии комплексы для производства \
                    металлургических предприятий";
    assert!(!is_garbage_text(cyrillic));
}

#[test]
fn cid_garbage_detected() {
    let cid = "Ë>íÓ\tý\r\u{0088}æ&Ït\u{0094}äí;\ný;wAL¢©èåD\rü£\
               qq\u{0096}¶Í Æ\réá; Ô 7G\u{008B}ý;èÕç¢ £ ý;C";
    assert!(is_cid_garbage(cid));
}

#[test]
fn korean_text_not_cid_garbage() {
    let korean = "본 가격표는 국내 거주 중인 외국인을 위한 한국어 가격표의 비공식 번역본입니다";
    assert!(!is_cid_garbage(korean));
}

#[test]
fn fffd_encoding_issue() {
    assert!(detect_encoding_issues("Some text with \u{FFFD} replacement"));
}

#[test]
fn dollar_as_space_encoding_issue() {
    let garbled = "Last$advanced$Book$Programm$3th$Workshop$on$Chest$Wall$Deformities$and$More";
    assert!(detect_encoding_issues(garbled));
}

#[test]
fn financial_text_no_encoding_issue() {
    let financial = "Revenue was $100M in Q1, up from $90M. Costs: $50M, $30M, $20M, $15M, $12M, $8M, $5M, $3M, $2M, $1M, $500K.";
    assert!(!detect_encoding_issues(financial));
}

#[test]
fn clean_text_no_encoding_issue() {
    assert!(!detect_encoding_issues("Normal markdown text with no issues."));
}

#[test]
fn quality_report_combined() {
    let report = check_quality("Hello, this is perfectly fine text with enough words for the check.");
    assert!(!report.needs_ocr_fallback());
}
