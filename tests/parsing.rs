use corg::config::{flag_or_default, number_or_default, ItemConfig};
use corg::item::Item;
use corg::reader::{parse_categories_section, parse_order_file, parse_order_section, read_string, read_u16, read_u8, FormatError};

fn section(paths: &[&str]) -> Vec<u8> {
    let mut out: Vec<u8> = b"order.roa\0".to_vec();
    out.push(1);
    out.extend_from_slice(&(paths.len() as u16).to_le_bytes());
    out.extend_from_slice(&[0, 0]);
    for p in paths {
        out.extend_from_slice(p.as_bytes());
        out.push(0);
    }
    out
}

#[test]
fn reads_little_endian_fields() {
    let data = [0x34u8, 0x12, 7];
    assert_eq!(read_u16(&data, 0), (0x1234, 2));
    assert_eq!(read_u8(&data, 2), (7, 3));
    assert_eq!(read_u8(&data, 3), (0, 3));
    assert_eq!(read_u16(&data, 2), (0, 3));
}

#[test]
fn reads_terminated_and_unterminated_strings() {
    let data = b"ab\0cd";
    let (s, next) = read_string(data, 0);
    assert_eq!(s, "ab");
    assert_eq!(next, 3);
    let (t, end) = read_string(data, 3);
    assert_eq!(t, "cd");
    assert_eq!(end, 5);
}

#[test]
fn four_sections_read_in_order() {
    let mut data = section(&["chars/a", "chars/b"]);
    data.extend(section(&["buddies/x"]));
    data.extend(section(&[]));
    data.extend(section(&["skins/s1", "skins/s2", "skins/s3"]));
    let (chars, after_chars) = parse_order_section(&data, 0).unwrap();
    let (buddies, after_buddies) = parse_order_section(&data, after_chars).unwrap();
    let (stages, after_stages) = parse_order_section(&data, after_buddies).unwrap();
    let (skins, end) = parse_order_section(&data, after_stages).unwrap();
    assert_eq!(chars, vec!["chars/a".to_string(), "chars/b".to_string()]);
    assert_eq!(buddies, vec!["buddies/x".to_string()]);
    assert!(stages.is_empty());
    assert_eq!(skins.len(), 3);
    assert_eq!(skins[2], "skins/s3");
    assert_eq!(end, data.len());
}

#[test]
fn section_errors() {
    let mut bad_magic = section(&["a"]);
    bad_magic[0] = b'x';
    assert_eq!(parse_order_section(&bad_magic, 0), Err(FormatError::BadMagic));
    let mut bad_flag = section(&["a"]);
    bad_flag[10] = 2;
    assert_eq!(parse_order_section(&bad_flag, 0), Err(FormatError::BadFlag));
    let mut bad_reserved = section(&["a"]);
    bad_reserved[13] = 1;
    assert_eq!(parse_order_section(&bad_reserved, 0), Err(FormatError::BadReserved));
    assert_eq!(parse_order_section(&[], 0), Err(FormatError::BadMagic));
}

#[test]
fn categories_file_pairs() {
    let mut data: Vec<u8> = vec![2, 0];
    data.extend_from_slice(&[0, 0]);
    data.extend_from_slice(b"Base\0");
    data.extend_from_slice(&[3, 1]);
    data.extend_from_slice(b"Extra\0");
    let cats = parse_categories_section(&data);
    assert_eq!(cats, vec![("Base".to_string(), 0), ("Extra".to_string(), 259)]);
    assert!(parse_categories_section(&[]).is_empty());
}

#[test]
fn extractor_absent_and_present_keys() {
    let text = "[general]\nname = \"Zetter\"\nauthor=\"Dan\"\nicon   =   \"i.png\"\n";
    assert_eq!(ItemConfig::get_value_from_config("name", text), "Zetter");
    assert_eq!(ItemConfig::get_value_from_config("author", text), "Dan");
    assert_eq!(ItemConfig::get_value_from_config("icon", text), "i.png");
    assert_eq!(ItemConfig::get_value_from_config("root", text), "");
}

#[test]
fn extractor_stays_inside_general_block() {
    let text = "name=\"outside\"\n[general]\r\nname = \"inside\"\r\n[other]\nroot = \"r\"\n";
    assert_eq!(ItemConfig::get_value_from_config("name", text), "inside");
    assert_eq!(ItemConfig::get_value_from_config("root", text), "");
    assert_eq!(ItemConfig::get_value_from_config("name", "no block here"), "");
    assert_eq!(ItemConfig::get_value_from_config("name", ""), "");
}

#[test]
fn extractor_value_runs_to_last_quote() {
    let text = "[general]\ndescription = \"a \"quoted\" word\"\n";
    assert_eq!(ItemConfig::get_value_from_config("description", text), "a \"quoted\" word");
}

#[test]
fn number_and_flag_policy() {
    assert_eq!(number_or_default("42", 255), 42);
    assert_eq!(number_or_default("+7", 255), 7);
    assert_eq!(number_or_default("256", 255), 0);
    assert_eq!(number_or_default("x1", 255), 0);
    assert_eq!(number_or_default("", 255), 0);
    assert_eq!(number_or_default("4294967295", 4294967295), 4294967295);
    assert!(flag_or_default("true"));
    assert!(!flag_or_default("True"));
    assert!(!flag_or_default("false"));
}

#[test]
fn item_from_config_fields() {
    let text = "[general]\nicon=\"icon.png\"\nname=\"Kragg\"\ntype=\"0\"\nurl=\"2229832619\"\nauthor=\"Dan\"\ndescription=\"rock\"\nmajor_version=\"1\"\nminor_version=\"12\"\nfinished=\"true\"\nbg_color=\"#ff0000\"\nplural=\"false\"\nroot=\"chars/kragg\"\n";
    let it = Item::from_config(text);
    assert_eq!(it.icon, "icon.png");
    assert_eq!(it.name, "Kragg");
    assert_eq!(it.item_type, 0);
    assert_eq!(it.url, 2229832619);
    assert_eq!(it.author, "Dan");
    assert_eq!(it.description, "rock");
    assert_eq!(it.version, (1, 12));
    assert!(it.finished);
    assert_eq!(it.bg_color, "#ff0000");
    assert!(!it.plural);
    assert_eq!(it.root, "chars/kragg");
}

#[test]
fn unparsable_major_version_reads_zero() {
    let text = "[general]\nmajor_version = \"one\"\nminor_version = \"3\"\n";
    let it = Item::from_config(text);
    assert_eq!(it.version, (0, 3));
}

#[test]
fn empty_config_gives_defaults() {
    let it = Item::from_config("");
    let d = Item::new();
    assert_eq!(it.name, d.name);
    assert_eq!(it.version, (0, 0));
    assert_eq!(it.url, 0);
    assert!(!it.finished);
    assert_eq!(it.root, "");
}

#[test]
fn extractor_block_ends_at_blank_line() {
    let text = "[general]\nname = \"A\"\n\nauthor = \"B\"\n";
    assert_eq!(ItemConfig::get_value_from_config("name", text), "A");
    assert_eq!(ItemConfig::get_value_from_config("author", text), "");
    let crlf = "[general]\r\nname = \"A\"\r\n\r\nauthor = \"B\"\r\n";
    assert_eq!(ItemConfig::get_value_from_config("author", crlf), "");
}

#[test]
fn order_file_sections_in_fixed_order() {
    let mut data = section(&["c1"]);
    data.extend(section(&["b1", "b2"]));
    data.extend(section(&["s1"]));
    data.extend(section(&[]));
    let paths = parse_order_file(&data).unwrap();
    assert_eq!(paths.characters, vec!["c1".to_string()]);
    assert_eq!(paths.buddies, vec!["b1".to_string(), "b2".to_string()]);
    assert_eq!(paths.stages, vec!["s1".to_string()]);
    assert!(paths.skins.is_empty());
    let mut bad = section(&["c1"]);
    bad.extend(section(&["b1"]));
    bad.push(b'x');
    assert_eq!(parse_order_file(&bad).err(), Some(FormatError::BadMagic));
}
