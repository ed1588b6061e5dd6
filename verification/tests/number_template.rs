use regex::Regex;
use spring_anim::number_template::{number_texts, replace_numbers, template_texts};

const PATTERN: &str = r"([+\-]?(?:0|[1-9]\d*)(?:\.\d*)?(?:[eE][+\-]?\d+)?)";

fn strs(v: &[&str]) -> Vec<String> {
    v.iter().map(|s| s.to_string()).collect()
}

fn regex_numbers(re: &Regex, text: &str) -> Vec<String> {
    re.captures_iter(text).map(|c| c[0].to_string()).collect()
}

fn regex_template(re: &Regex, text: &str) -> Vec<String> {
    re.split(text).map(|s| s.to_string()).collect()
}

fn regex_replace(re: &Regex, text: &str, replacements: &[String]) -> String {
    let mut idx = 0;
    re.replace_all(text, |_: &regex::Captures| {
        idx += 1;
        if let Some(val) = replacements.get(idx - 1) {
            val.to_string()
        } else {
            " ".to_string()
        }
    })
    .to_string()
}

#[test]
fn transform_value_splits_into_numbers_and_template() {
    let text = "perspective(600px) rotateX(180deg)";
    assert_eq!(number_texts(text), strs(&["600", "180"]));
    assert_eq!(template_texts(text), strs(&["perspective(", "px) rotateX(", "deg)"]));
}

#[test]
fn colour_value_splits_into_numbers_and_template() {
    let text = "rgb(0, 100, 200)";
    assert_eq!(number_texts(text), strs(&["0", "100", "200"]));
    assert_eq!(template_texts(text), strs(&["rgb(", ", ", ", ", ")"]));
}

#[test]
fn number_forms() {
    assert_eq!(number_texts("007"), strs(&["0", "0", "7"]));
    assert_eq!(number_texts("1.5e-3px"), strs(&["1.5e-3"]));
    assert_eq!(number_texts("1.e5"), strs(&["1.e5"]));
    assert_eq!(number_texts("1e+"), strs(&["1"]));
    assert_eq!(template_texts("1e+"), strs(&["", "e+"]));
    assert_eq!(number_texts("+-5"), strs(&["-5"]));
    assert_eq!(number_texts("-.5"), strs(&["5"]));
    assert_eq!(template_texts("-.5"), strs(&["-.", ""]));
    assert_eq!(number_texts("2E10 3e"), strs(&["2E10", "3"]));
    assert_eq!(number_texts("0.25"), strs(&["0.25"]));
    assert_eq!(number_texts("12.34.56"), strs(&["12.34", "56"]));
}

#[test]
fn value_without_numbers() {
    assert_eq!(number_texts(""), Vec::<String>::new());
    assert_eq!(template_texts(""), strs(&[""]));
    assert_eq!(number_texts("auto"), Vec::<String>::new());
    assert_eq!(template_texts("auto"), strs(&["auto"]));
}

#[test]
fn non_ascii_text_around_numbers() {
    assert_eq!(number_texts("é12ü3"), strs(&["12", "3"]));
    assert_eq!(template_texts("é12ü3"), strs(&["é", "ü", ""]));
}

#[test]
fn digits_of_other_scripts_continue_a_number() {
    assert_eq!(number_texts("1\u{661}px"), strs(&["1\u{661}"]));
    assert_eq!(replace_numbers("1\u{661}px", &strs(&["7"])), "7px");
    assert_eq!(number_texts("\u{661}2"), strs(&["2"]));
    assert_eq!(template_texts("\u{661}2"), strs(&["\u{661}", ""]));
    assert_eq!(number_texts("3.\u{966}e\u{ff15}"), strs(&["3.\u{966}e\u{ff15}"]));
    assert_eq!(number_texts("4\u{b2}"), strs(&["4"]));
}

#[test]
fn replace_puts_values_into_template() {
    let text = "perspective(600px) rotateX(180deg)";
    assert_eq!(replace_numbers(text, &strs(&["1", "2"])), "perspective(1px) rotateX(2deg)");
    assert_eq!(replace_numbers(text, &strs(&["1"])), "perspective(1px) rotateX( deg)");
    assert_eq!(replace_numbers(text, &strs(&["1", "2", "3"])), "perspective(1px) rotateX(2deg)");
    assert_eq!(replace_numbers("auto", &strs(&["1"])), "auto");
}

#[test]
fn template_and_numbers_rebuild_the_value() {
    for text in ["perspective(600px) rotateX(180deg)", "rgb(0, 100, 200)", "-1.5e3x+2", "", "a1b22c333"] {
        let t = template_texts(text);
        let n = number_texts(text);
        assert_eq!(t.len(), n.len() + 1);
        let mut rebuilt = t[0].clone();
        for k in 0..n.len() {
            rebuilt.push_str(&n[k]);
            rebuilt.push_str(&t[k + 1]);
        }
        assert_eq!(rebuilt, text);
    }
}

#[test]
fn replacing_with_own_numbers_gives_back_the_value() {
    for text in ["perspective(600px) rotateX(180deg)", "0.0", "1e+5 2.e-7", "x"] {
        assert_eq!(replace_numbers(text, &number_texts(text)), text);
    }
}

#[test]
fn template_pieces_hold_no_number() {
    for text in ["perspective(600px) rotateX(180deg)", "--5+.3e+", "a+b-c.e1"] {
        for piece in template_texts(text) {
            assert!(number_texts(&piece).is_empty(), "{:?} in {:?}", piece, text);
        }
    }
}

#[test]
fn each_number_is_whole_on_its_own() {
    for text in ["perspective(600px) rotateX(180deg)", "1.5e-3px 007 +4", "-0.e+1"] {
        for n in number_texts(text) {
            assert_eq!(number_texts(&n), vec![n.clone()]);
        }
    }
}

#[test]
fn agrees_with_the_regex_on_many_values() {
    let alphabet: Vec<char> = "0123456789+-.eEx (),\u{661}\u{966}\u{ff15}\u{b2}\u{2163}\u{1d7ce}".chars().collect();
    let mut seed: u64 = 0x2545_f491_4f6c_dd1d;
    let re = Regex::new(PATTERN).unwrap();
    for _ in 0..1500 {
        seed = seed.wrapping_mul(6364136223846793005).wrapping_add(1442695040888963407);
        let len = (seed >> 59) as usize;
        let mut text = String::new();
        for _ in 0..len {
            seed = seed.wrapping_mul(6364136223846793005).wrapping_add(1442695040888963407);
            text.push(alphabet[(seed >> 33) as usize % alphabet.len()]);
        }
        assert_eq!(number_texts(&text), regex_numbers(&re, &text), "numbers of {:?}", text);
        assert_eq!(template_texts(&text), regex_template(&re, &text), "template of {:?}", text);
        let repl = strs(&["A", "BB"]);
        assert_eq!(replace_numbers(&text, &repl), regex_replace(&re, &text, &repl), "replace in {:?}", text);
    }
}
