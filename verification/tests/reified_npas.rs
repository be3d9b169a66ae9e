use ontologos::complex::element_block_end;
use ontologos::reified::{
    collect_reified_data_npas, element_text_content, find_top_level_element_bounds,
};

#[test]
fn rdf_preprocess_collect_reified_data_npa_minimal() {
    let text = r#"<rdf:RDF xmlns:rdf="http://www.w3.org/1999/02/22-rdf-syntax-ns#" xmlns:owl="http://www.w3.org/2002/07/owl#" xmlns:ex="http://www.example.org#">
  <rdf:Description rdf:about="http://www.example.org#z">
<owl:sourceIndividual>
  <rdf:Description rdf:about="http://www.example.org#s">
    <ex:p>data</ex:p>
  </rdf:Description>
</owl:sourceIndividual>
<owl:assertionProperty rdf:resource="http://www.example.org#p"/>
<owl:targetValue>data</owl:targetValue>
  </rdf:Description>
</rdf:RDF>"#;
    let start = text.find("<rdf:Description").unwrap();
    let end = element_block_end(text, start, "rdf:Description", "</rdf:Description>")
        .expect("block end");
    let block = &text[start..end];
    let open_end = block.find('>').unwrap();
    let close_idx = block.rfind("</rdf:Description>").unwrap();
    let inner = &block[open_end + 1..close_idx];
    assert!(inner.contains("owl:targetValue"), "inner={inner}");
    assert!(
        find_top_level_element_bounds(inner, "owl:sourceIndividual").is_some(),
        "sourceIndividual missing"
    );
    assert!(
        element_text_content(inner, "owl:targetValue").is_some(),
        "targetValue missing"
    );
    let collected = collect_reified_data_npas(text);
    assert_eq!(collected.len(), 1, "{collected:?}");
}

#[test]
fn rdf_preprocess_tests_collect_reified_data_npa_minimal() {
    let text = r#"<rdf:RDF xmlns:rdf="http://www.w3.org/1999/02/22-rdf-syntax-ns#" xmlns:owl="http://www.w3.org/2002/07/owl#" xmlns:ex="http://www.example.org#">
  <rdf:Description rdf:about="http://www.example.org#z">
    <owl:sourceIndividual>
      <rdf:Description rdf:about="http://www.example.org#s">
        <ex:p>data</ex:p>
      </rdf:Description>
    </owl:sourceIndividual>
    <owl:assertionProperty rdf:resource="http://www.example.org#p"/>
    <owl:targetValue>data</owl:targetValue>
  </rdf:Description>
</rdf:RDF>"#;
    let start = text.find("<rdf:Description").unwrap();
    let end =
        element_block_end(text, start, "rdf:Description", "</rdf:Description>").expect("block end");
    let block = &text[start..end];
    let open_end = block.find('>').unwrap();
    let close_idx = block.rfind("</rdf:Description>").unwrap();
    let inner = &block[open_end + 1..close_idx];
    assert!(inner.contains("owl:targetValue"), "inner={inner}");
    assert!(
        find_top_level_element_bounds(inner, "owl:sourceIndividual").is_some(),
        "sourceIndividual missing"
    );
    assert!(
        element_text_content(inner, "owl:targetValue").is_some(),
        "targetValue missing"
    );
    let collected = collect_reified_data_npas(text);
    assert_eq!(collected.len(), 1, "{collected:?}");
}
