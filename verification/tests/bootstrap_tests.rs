use kcl_multilang::maven::MavenPackage;
use kcl_multilang::pom::{parse_pom, strip_ns, PomEvent, PomParser};

#[test]
fn maven_names_and_urls() {
    let p = MavenPackage::new("software.amazon.kinesis", "amazon-kinesis-client-multilang", "2.5.2");
    assert_eq!(p.file_name(), "amazon-kinesis-client-multilang-2.5.2.jar");
    assert_eq!(
        p.url(),
        "https://repo1.maven.org/maven2/software/amazon/kinesis/amazon-kinesis-client-multilang/2.5.2/amazon-kinesis-client-multilang-2.5.2.jar"
    );
}

#[test]
fn strip_ns_drops_the_prefix() {
    assert_eq!(strip_ns(b"dependency"), "dependency");
    assert_eq!(strip_ns(b"mvn:dependency"), "dependency");
    assert_eq!(strip_ns(b"a:b:version"), "version");
    assert_eq!(strip_ns(b"trailing:"), "");
    assert_eq!(strip_ns(b""), "");
    assert_eq!(strip_ns(&[0xFFu8, b'x']), "");
    // a valid UTF-8 tag keeps its non-ASCII local name
    assert_eq!(strip_ns("ns:caf\u{e9}".as_bytes()), "caf\u{e9}");
}

#[test]
fn parser_collects_a_dependency_with_property_substitution() {
    let mut p = PomParser::new();
    let ev = |e: PomEvent, p: &mut PomParser| p.feed(e);
    ev(PomEvent::Start(b"properties".to_vec()), &mut p);
    ev(PomEvent::Start(b"kcl.version".to_vec()), &mut p);
    ev(PomEvent::Text("  2.5.2 ".to_string()), &mut p);
    ev(PomEvent::End(b"kcl.version".to_vec()), &mut p);
    ev(PomEvent::End(b"properties".to_vec()), &mut p);
    ev(PomEvent::Start(b"dependency".to_vec()), &mut p);
    ev(PomEvent::Start(b"groupId".to_vec()), &mut p);
    ev(PomEvent::Text("software.amazon.kinesis".to_string()), &mut p);
    ev(PomEvent::End(b"groupId".to_vec()), &mut p);
    ev(PomEvent::Start(b"artifactId".to_vec()), &mut p);
    ev(PomEvent::Text("amazon-kinesis-client".to_string()), &mut p);
    ev(PomEvent::End(b"artifactId".to_vec()), &mut p);
    ev(PomEvent::Start(b"version".to_vec()), &mut p);
    ev(PomEvent::Text("${kcl.version}".to_string()), &mut p);
    ev(PomEvent::End(b"version".to_vec()), &mut p);
    ev(PomEvent::End(b"dependency".to_vec()), &mut p);
    assert_eq!(p.packages.len(), 1);
    assert_eq!(p.packages[0].group_id, "software.amazon.kinesis");
    assert_eq!(p.packages[0].artifact_id, "amazon-kinesis-client");
    assert_eq!(p.packages[0].version, "2.5.2");
}

#[test]
fn parse_pom_reads_dependencies_and_skips_exclusions() {
    let pom = "\
<project>
  <properties>
    <log.version>1.4.8</log.version>
  </properties>
  <dependencies>
    <dependency>
      <groupId>software.amazon.kinesis</groupId>
      <artifactId>amazon-kinesis-client-multilang</artifactId>
      <version>2.5.2</version>
      <exclusions>
        <exclusion>
          <groupId>ignored</groupId>
          <artifactId>ignored</artifactId>
        </exclusion>
      </exclusions>
    </dependency>
    <dependency>
      <groupId>ch.qos.logback</groupId>
      <artifactId>logback-classic</artifactId>
      <version>${log.version}</version>
    </dependency>
    <dependency>
      <groupId>no.version</groupId>
      <artifactId>skipped</artifactId>
    </dependency>
  </dependencies>
</project>
";
    let pkgs = parse_pom(pom);
    assert_eq!(pkgs.len(), 2);
    assert_eq!(pkgs[0].group_id, "software.amazon.kinesis");
    assert_eq!(pkgs[0].artifact_id, "amazon-kinesis-client-multilang");
    assert_eq!(pkgs[0].version, "2.5.2");
    assert_eq!(pkgs[1].group_id, "ch.qos.logback");
    assert_eq!(pkgs[1].artifact_id, "logback-classic");
    assert_eq!(pkgs[1].version, "1.4.8");
}
