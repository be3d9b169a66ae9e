use ontologos::restrictions::{data_restriction_ce_to_ofn, restriction_ce_to_ofn};

#[test]
fn rdf_preprocess_rational002_allvaluesfrom_oneof_ofn() {
    let avf = r#"<owl:Restriction>
  <owl:onProperty rdf:resource="dp" />
  <owl:allValuesFrom>
    <rdfs:Datatype>
      <owl:oneOf>
        <rdf:Description>
          <rdf:first rdf:datatype="http://www.w3.org/2001/XMLSchema#decimal">0.5</rdf:first>
          <rdf:rest>
            <rdf:Description>
              <rdf:first rdf:datatype="http://www.w3.org/2002/07/owl#rational">1/2</rdf:first>
              <rdf:rest rdf:resource="http://www.w3.org/1999/02/22-rdf-syntax-ns#"/>
            </rdf:Description>
          </rdf:rest>
        </rdf:Description>
      </owl:oneOf>
    </rdfs:Datatype>
  </owl:allValuesFrom>
</owl:Restriction>"#;
    let base = "http://example.org/";
    let mut dt: Vec<String> = Vec::new();
    dt.push("http://example.org/dp".to_string());
    let ofn = data_restriction_ce_to_ofn(avf, base, &dt);
    assert!(ofn.is_some_and(|s| s.contains("DataAllValuesFrom")));
}

#[test]
fn rdf_preprocess_tests_rational002_allvaluesfrom_oneof_ofn() {
    let avf = r#"<owl:Restriction>
      <owl:onProperty rdf:resource="dp" />
      <owl:allValuesFrom>
        <rdfs:Datatype>
          <owl:oneOf>
            <rdf:Description>
              <rdf:first rdf:datatype="http://www.w3.org/2001/XMLSchema#decimal">0.5</rdf:first>
              <rdf:rest>
                <rdf:Description>
                  <rdf:first rdf:datatype="http://www.w3.org/2002/07/owl#rational">1/2</rdf:first>
                  <rdf:rest rdf:resource="http://www.w3.org/1999/02/22-rdf-syntax-ns#"/>
                </rdf:Description>
              </rdf:rest>
            </rdf:Description>
          </owl:oneOf>
        </rdfs:Datatype>
      </owl:allValuesFrom>
    </owl:Restriction>"#;
    let base = "http://example.org/";
    let mut dt: Vec<String> = Vec::new();
    dt.push("http://example.org/dp".to_string());
    let ofn = data_restriction_ce_to_ofn(avf, base, &dt);
    assert!(ofn.is_some_and(|s| s.contains("DataAllValuesFrom")));
}

#[test]
fn rdf_preprocess_data_restriction_min_cardinality_ofn() {
    let ce = r#"<owl:Restriction>
<owl:onProperty rdf:resource="dp"/>
<owl:minCardinality>2</owl:minCardinality>
  </owl:Restriction>"#;
    let base = "http://example.org/";
    let mut dt: Vec<String> = Vec::new();
    dt.push("http://example.org/dp".to_string());
    let ofn = data_restriction_ce_to_ofn(ce, base, &dt);
    assert_eq!(
        ofn.as_deref(),
        Some("DataMinCardinality(2 <http://example.org/dp>)")
    );
}

#[test]
fn rdf_preprocess_tests_data_restriction_min_cardinality_ofn() {
    let ce = r#"<owl:Restriction>
    <owl:onProperty rdf:resource="dp"/>
    <owl:minCardinality>2</owl:minCardinality>
  </owl:Restriction>"#;
    let base = "http://example.org/";
    let mut dt: Vec<String> = Vec::new();
    dt.push("http://example.org/dp".to_string());
    let ofn = data_restriction_ce_to_ofn(ce, base, &dt);
    assert_eq!(
        ofn.as_deref(),
        Some("DataMinCardinality(2 <http://example.org/dp>)")
    );
}

#[test]
fn nominals2_max_cardinality_restriction_ofn() {
    let block = r#"<owl:Restriction>
                        <owl:onProperty rdf:resource="file:/c:/temp/test.owl#r"/>
                        <owl:onClass rdf:resource="file:/c:/temp/test.owl#d"/>
                        <owl:maxCardinality rdf:datatype="http://www.w3.org/2001/XMLSchema#nonNegativeInteger">2</owl:maxCardinality>
                    </owl:Restriction>"#;
    let base = "file:/c:/temp/test.owl";
    let dt: Vec<String> = Vec::new();
    let ofn = restriction_ce_to_ofn(block.trim(), base, &dt);
    assert!(ofn.is_some_and(|s| s.contains("ObjectMaxCardinality")));
}
