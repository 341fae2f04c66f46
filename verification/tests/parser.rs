use dpkg_parser::parser::parse;
use dpkg_parser::parser::parse_field;
use dpkg_parser::parser::parse_libraries;
use dpkg_parser::parser::FieldName;
use dpkg_parser::parser::ParseError;
use dpkg_parser::Config;
use dpkg_parser::BuildConfigError;

#[test]
fn test_parse() {
    let source = "\
Package: libws-commons-util-java
Status: install ok installed
Priority: optional
Section: java
Installed-Size: 101
Maintainer: Ubuntu Developers <ubuntu-devel-discuss@lists.ubuntu.com>
Architecture: all
Version: 1.0.1-7
Description: Common utilities from the Apache Web Services Project
    This is a small collection of utility classes, that allow high
    performance XML processing based on SAX.
Original-Maintainer: Debian Java Maintainers <pkg-java-maintainers@lists.alioth.debian.org>
Homepage: http://ws.apache.org/commons/util/

Package: python-pkg-resources
Status: install ok installed
Priority: optional
Section: python
Installed-Size: 175
Maintainer: Ubuntu Developers <ubuntu-devel-discuss@lists.ubuntu.com>
Architecture: all
Source: distribute
Version: 0.6.24-1ubuntu1
Replaces: python2.3-setuptools, python2.4-setuptools
Provides: python2.6-setuptools, python2.7-setuptools
Depends: python (>= 2.6), python (<< 2.8)
Suggests: python-distribute, python-distribute-doc
Conflicts: python-setuptools (<< 0.6c8-3), python2.3-setuptools (<< 0.6b2), python2.4-setuptools (<< 0.6b2)
Description: Package Discovery and Resource Access using pkg_resources
    The pkg_resources module provides an API for Python libraries to
    access their resource files, and for extensible applications and
    frameworks to automatically discover plugins.  It also provides
    runtime support for using C extensions that are inside zipfile-format
    eggs, support for merging packages that have separately-distributed
    modules or subpackages, and APIs for managing Python's current
    \"working set\" of active packages.
Original-Maintainer: Matthias Klose <doko@debian.org>
Homepage: http://packages.python.org/distribute
Python-Version: 2.6, 2.7

Package: tcpd
Status: install ok installed
Multi-Arch: foreign
Priority: optional
Section: net
Installed-Size: 132
Maintainer: Ubuntu Developers <ubuntu-devel-discuss@lists.ubuntu.com>
Architecture: amd64
Source: tcp-wrappers
Version: 7.6.q-21
Replaces: libwrap0 (<< 7.6-8)
Depends: libc6 (>= 2.4), libwrap0 (>= 7.6-4~)
Description: Wietse Venema's TCP wrapper utilities
    Wietse Venema's network logger, also known as TCPD or LOG_TCP.
    .
    These programs log the client host name of incoming telnet,
    ftp, rsh, rlogin, finger etc. requests.
    .
    Security options are:
    - access control per host, domain and/or service;
    - detection of host name spoofing or host address spoofing;
    - booby traps to implement an early-warning system.
Original-Maintainer: Marco d'Itri <md@linux.it>";

    let result = parse(source).unwrap();

    assert_eq!(result.packages.len(), 3);
    assert_eq!(result.packages[0].name, "libws-commons-util-java");
}

const PACKAGE: &str = "\
Package: libssl1.0.0
Status: install ok installed
Multi-Arch: same
Priority: important
Section: libs
Installed-Size: 2836
Maintainer: Ubuntu Developers <ubuntu-devel-discuss@lists.ubuntu.com>
Architecture: amd64
Source: openssl
Version: 1.0.1-4ubuntu5.5
Depends: libc6 (>= 2.14), zlib1g (>= 1:1.1.4), debconf (>= 0.5) | debconf-2.0
Pre-Depends: multiarch-support
Breaks: openssh-client (<< 1:5.9p1-4), openssh-server (<< 1:5.9p1-4)
Description: SSL shared libraries
    libssl and libcrypto shared libraries needed by programs like
    apache-ssl, telnet-ssl and openssh.
    .
    It is part of the OpenSSL implementation of SSL.
Original-Maintainer: Debian OpenSSL Team <pkg-openssl-devel@lists.alioth.debian.org>";

#[test]
fn test_parse_name_field() {
    assert_eq!(
        parse_field(FieldName::Package, PACKAGE).unwrap(),
        "libssl1.0.0"
    );
}

#[test]
fn test_parse_depends_field() {
    assert_eq!(
        parse_field(FieldName::Depends, PACKAGE).unwrap(),
        "libc6 (>= 2.14), zlib1g (>= 1:1.1.4), debconf (>= 0.5) | debconf-2.0"
    );
}

#[test]
fn test_parse_description_field() {
    assert_eq!(
        parse_field(FieldName::Description, PACKAGE).unwrap(),
        "SSL shared libraries
libssl and libcrypto shared libraries needed by programs like
apache-ssl, telnet-ssl and openssh.
.
It is part of the OpenSSL implementation of SSL."
    );
}

#[test]
fn test_parse_libraries() {
    let result =
        parse_libraries("libc6 (>= 2.14), zlib1g (>= 1:1.1.4), debconf (>= 0.5) | debconf-2.0")
            .unwrap();

    assert_eq!(result[0].name, "libc6 (>= 2.14)");
    assert!(result[0].alternates.is_empty());
    assert_eq!(result[1].name, "zlib1g (>= 1:1.1.4)");
    assert!(result[1].alternates.is_empty());
    assert_eq!(result[2].name, "debconf (>= 0.5)");
    assert_eq!(result[2].alternates.len(), 1);
    assert_eq!(result[2].alternates[0], "debconf-2.0");
}

#[test]
fn test_parse_libraries_empty() {
    let result = parse_libraries("").unwrap();
    assert!(result.is_empty());
}

#[test]
fn test_field_round_trip() {
    let value = parse_field(FieldName::Description, "Description: A\n  B\n  C").unwrap();
    assert_eq!(value, "A\nB\nC");
}

#[test]
fn test_dot_line_preserved() {
    let value = parse_field(FieldName::Description, "Description: first\n  .\n  second").unwrap();
    assert_eq!(value, "first\n.\nsecond");
}

#[test]
fn test_absent_field_is_empty() {
    let value = parse_field(FieldName::Depends, "Package: foo\nDescription: bar").unwrap();
    assert_eq!(value, "");
}

#[test]
fn test_two_stanza_end_to_end() {
    let result = parse("Package: foo\nDescription: bar\n\nPackage: baz\nDepends: a, b | c").unwrap();

    assert_eq!(result.packages.len(), 2);
    assert_eq!(result.packages[0].name, "foo");
    assert_eq!(result.packages[0].description, "bar");
    assert!(result.packages[0].depends.is_empty());
    assert_eq!(result.packages[1].name, "baz");
    assert_eq!(result.packages[1].description, "");
    assert_eq!(result.packages[1].depends.len(), 2);
    assert_eq!(result.packages[1].depends[0].name, "a");
    assert!(result.packages[1].depends[0].alternates.is_empty());
    assert_eq!(result.packages[1].depends[1].name, "b");
    assert_eq!(result.packages[1].depends[1].alternates, vec!["c".to_string()]);
}

#[test]
fn test_package_count_matches_stanza_count() {
    // Consecutive blank lines and a trailing blank line add no stanza.
    let result = parse("Package: one\n\n\nPackage: two\n\nPackage: three\n").unwrap();
    assert_eq!(result.packages.len(), 3);
}

#[test]
fn test_missing_package_name_fails() {
    let result = parse("Description: no name here");
    match result {
        Err(ParseError::PackageNameNotFound(text)) => {
            assert_eq!(text, "Description: no name here");
        }
        _ => panic!("expected PackageNameNotFound"),
    }
}

#[test]
fn test_failure_aborts_later_stanzas() {
    // The second stanza has an empty Package value; the third is never kept.
    let result = parse("Package: ok\n\nPackage: \n\nPackage: fine");
    match result {
        Err(ParseError::PackageNameNotFound(text)) => {
            assert_eq!(text, "Package: ");
        }
        _ => panic!("expected PackageNameNotFound"),
    }
}

#[test]
fn test_parse_error_message() {
    let err = ParseError::PackageNameNotFound("Version: 1".to_string());
    assert_eq!(err.message(), "package name not found\n\nVersion: 1");
}

#[test]
fn test_parse_empty_source() {
    let result = parse("").unwrap();
    assert!(result.packages.is_empty());
}

#[test]
fn test_capture_stops_at_next_field() {
    // Once a capture is active, a line that does not start with a space
    // terminates the field; scanning stops entirely.
    let value = parse_field(FieldName::Description, "Description: a\nOther: b\n  c").unwrap();
    assert_eq!(value, "a");
}

#[test]
fn test_first_field_occurrence_wins() {
    let value = parse_field(FieldName::Description, "Description: a\nDescription: b").unwrap();
    assert_eq!(value, "a");
}

#[test]
fn test_lines_before_match_are_skipped() {
    let value = parse_field(FieldName::Package, "  stray continuation\nPackage: y").unwrap();
    assert_eq!(value, "y");
}

#[test]
fn test_crlf_line_endings() {
    let result = parse("Package: foo\r\nDescription: bar\r\n\r\nPackage: baz\r\n").unwrap();
    assert_eq!(result.packages.len(), 2);
    assert_eq!(result.packages[0].name, "foo");
    assert_eq!(result.packages[0].description, "bar");
    assert_eq!(result.packages[1].name, "baz");
}

#[test]
fn test_trailing_carriage_return_without_newline() {
    // A final line may keep its carriage return, as with str::lines; the
    // field value's trim removes it.
    let value = parse_field(FieldName::Package, "Package: x\r").unwrap();
    assert_eq!(value, "x");
}

#[test]
fn test_unicode_whitespace_trimmed() {
    // A continuation line is trimmed of Unicode whitespace, as str::trim
    // trims it; here a no-break space pads the content.
    let value = parse_field(FieldName::Description, "Description: a\n \u{a0}b\u{a0}").unwrap();
    assert_eq!(value, "a\nb");
}

#[test]
fn test_config_build() {
    let args = vec!["prog".to_string(), "status.txt".to_string()];
    let config = Config::build(args).unwrap();
    assert_eq!(config.file_path, "status.txt");

    let missing = Config::build(vec!["prog".to_string()]);
    assert!(matches!(missing, Err(BuildConfigError::NoFilePath)));
}
