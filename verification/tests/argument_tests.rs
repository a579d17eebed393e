use dir_reconcile::argument_holder::{ArgumentHolder, ConfigError, ParsedArguments};
use dir_reconcile::checksum::{ChecksumGenerator, HashAlgorithm};

fn parsed(a: Option<&str>, b: Option<&str>) -> ParsedArguments {
    ParsedArguments {
        directory_a: a.map(|s| s.to_string()),
        directory_b: b.map(|s| s.to_string()),
        ignore_unchanged: false,
        md5: false,
        sha1: false,
        sha256: false,
        adler32: false,
        crc32: false,
    }
}

fn holder_named(name: &str) -> ArgumentHolder {
    ArgumentHolder { hash_name: name.to_string(), ..ArgumentHolder::default() }
}

#[test]
fn the_default_is_md5_and_a_full_report() {
    let holder = ArgumentHolder::default();
    assert_eq!(holder.directory_a, "");
    assert_eq!(holder.directory_b, "");
    assert!(!holder.ignore_unchanged);
    assert_eq!(holder.hash_name, "md5");
}

#[test]
fn the_roots_and_the_flag_are_taken_over() {
    let mut args = parsed(Some("/data/a"), Some("/data/b"));
    args.ignore_unchanged = true;
    let holder = ArgumentHolder::from_args(args).expect("both roots were given");
    assert_eq!(holder.directory_a, "/data/a");
    assert_eq!(holder.directory_b, "/data/b");
    assert!(holder.ignore_unchanged);
    assert_eq!(holder.hash_name, "md5");
}

#[test]
fn each_flag_selects_its_algorithm() {
    let mut args = parsed(Some("a"), Some("b"));
    args.md5 = true;
    assert_eq!(ArgumentHolder::from_args(args).unwrap().hash_name, "md5");
    let mut args = parsed(Some("a"), Some("b"));
    args.sha1 = true;
    assert_eq!(ArgumentHolder::from_args(args).unwrap().hash_name, "sha1");
    let mut args = parsed(Some("a"), Some("b"));
    args.sha256 = true;
    assert_eq!(ArgumentHolder::from_args(args).unwrap().hash_name, "sha256");
    let mut args = parsed(Some("a"), Some("b"));
    args.adler32 = true;
    assert_eq!(ArgumentHolder::from_args(args).unwrap().hash_name, "adler32");
    let mut args = parsed(Some("a"), Some("b"));
    args.crc32 = true;
    assert_eq!(ArgumentHolder::from_args(args).unwrap().hash_name, "crc32");
}

#[test]
fn more_than_one_algorithm_is_an_error() {
    let mut args = parsed(Some("a"), Some("b"));
    args.crc32 = true;
    args.sha256 = true;
    assert_eq!(ArgumentHolder::from_args(args).err(), Some(ConfigError::ConflictingAlgorithms));
    let mut args = parsed(Some("a"), Some("b"));
    args.sha1 = true;
    args.md5 = true;
    args.adler32 = true;
    assert_eq!(ArgumentHolder::from_args(args).err(), Some(ConfigError::ConflictingAlgorithms));
}

#[test]
fn a_missing_root_is_told_before_a_second_algorithm() {
    let mut args = parsed(None, Some("b"));
    args.md5 = true;
    args.sha1 = true;
    assert_eq!(ArgumentHolder::from_args(args).err(), Some(ConfigError::MissingDirectory));
}

#[test]
fn a_missing_root_is_an_error() {
    assert_eq!(
        ArgumentHolder::from_args(parsed(None, Some("b"))).err(),
        Some(ConfigError::MissingDirectory)
    );
    assert_eq!(
        ArgumentHolder::from_args(parsed(Some("a"), None)).err(),
        Some(ConfigError::MissingDirectory)
    );
    assert_eq!(
        ArgumentHolder::from_args(parsed(None, None)).err(),
        Some(ConfigError::MissingDirectory)
    );
}

#[test]
fn names_select_their_algorithms() {
    assert_eq!(
        holder_named("md5").get_checksum_generator(),
        Ok(ChecksumGenerator { algorithm: HashAlgorithm::Md5 })
    );
    assert_eq!(
        holder_named("sha1").get_checksum_generator(),
        Ok(ChecksumGenerator { algorithm: HashAlgorithm::Sha1 })
    );
    assert_eq!(
        holder_named("sha256").get_checksum_generator(),
        Ok(ChecksumGenerator { algorithm: HashAlgorithm::Sha256 })
    );
    assert_eq!(HashAlgorithm::from_name("sha256"), Some(HashAlgorithm::Sha256));
}

#[test]
fn an_unknown_name_is_an_error() {
    assert_eq!(
        holder_named("whirlpool").get_checksum_generator(),
        Err(ConfigError::UnsupportedAlgorithm("whirlpool".to_string()))
    );
    assert_eq!(
        holder_named("SHA1").get_checksum_generator(),
        Err(ConfigError::UnsupportedAlgorithm("SHA1".to_string()))
    );
    assert_eq!(
        holder_named("").get_checksum_generator(),
        Err(ConfigError::UnsupportedAlgorithm("".to_string()))
    );
    assert_eq!(HashAlgorithm::from_name(""), None);
    assert_eq!(HashAlgorithm::from_name("SHA1"), None);
    assert_eq!(HashAlgorithm::from_name("md5 "), None);
    assert_eq!(HashAlgorithm::from_name("md"), None);
}

#[test]
fn the_default_configuration_selects_md5() {
    assert_eq!(
        ArgumentHolder::default().get_checksum_generator(),
        Ok(ChecksumGenerator { algorithm: HashAlgorithm::Md5 })
    );
    assert_eq!(HashAlgorithm::from_name("md5"), Some(HashAlgorithm::Md5));
    assert_eq!(HashAlgorithm::from_name("sha1"), Some(HashAlgorithm::Sha1));
}

#[test]
fn an_algorithm_without_implementation_is_an_error() {
    assert_eq!(
        holder_named("adler32").get_checksum_generator(),
        Err(ConfigError::UnsupportedAlgorithm("adler32".to_string()))
    );
    assert_eq!(
        holder_named("crc32").get_checksum_generator(),
        Err(ConfigError::UnsupportedAlgorithm("crc32".to_string()))
    );
    assert_eq!(HashAlgorithm::from_name("adler32"), None);
    assert_eq!(HashAlgorithm::from_name("crc32"), None);
}

#[test]
fn the_generator_makes_a_fresh_checksum_each_time() {
    let generator = holder_named("sha1").get_checksum_generator().unwrap();
    let mut first = generator.generate();
    assert_eq!(first.input(b"hello"), Ok(()));
    let second = generator.generate();
    assert_eq!(first.result_str(), "aaf4c61ddcc5e8a2dabede0f3b482cd9aea9434d");
    assert_eq!(second.result_str(), "da39a3ee5e6b4b0d3255bfef95601890afd80709");
}
