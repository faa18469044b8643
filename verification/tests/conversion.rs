//! The whole conversion, on concrete source documents.

use nfse_convert::convert::{convert, ConvError};
use nfse_convert::mapping::{map_document, StructureError};
use nfse_convert::node::{Elem, Node};

fn elem(children: Vec<(String, Node)>) -> Node {
    Node::Elem(Elem { attrs: vec![], children })
}

fn text(s: &str) -> Node {
    Node::Text(s.to_string())
}

fn entry(name: &str, n: Node) -> (String, Node) {
    (name.to_string(), n)
}

/// A minimal record wrapper around one details element.
fn comp(inf: Node) -> Node {
    elem(vec![entry("Nfse", elem(vec![entry("InfNfse", inf)]))])
}

fn doc_with_comp(c: Node) -> Node {
    elem(vec![entry("ListaNfse", elem(vec![entry("CompNfse", c)]))])
}

fn sample_record() -> Node {
    comp(elem(vec![entry("Numero", text("7"))]))
}

#[test]
fn bare_record_maps_like_singleton_list() {
    let bare = doc_with_comp(sample_record());
    let listed = doc_with_comp(Node::List(vec![sample_record()]));
    assert_eq!(map_document(&bare).unwrap(), map_document(&listed).unwrap());
}

#[test]
fn missing_record_list_is_a_structural_error() {
    let out = convert("<ConsultarNfseResposta></ConsultarNfseResposta>");
    match out {
        Err(ConvError::Structure(e)) => {
            assert_eq!(e, StructureError::MissingRecords);
            assert_eq!(
                e.message(),
                "Não foram encontradas notas fiscais no XML".to_string()
            );
        }
        _ => panic!("expected a structural error"),
    }
}

#[test]
fn missing_details_is_a_structural_error() {
    let out = convert(
        "<R><ListaNfse><CompNfse><Nfse></Nfse></CompNfse></ListaNfse></R>",
    );
    match out {
        Err(ConvError::Structure(e)) => {
            assert_eq!(e, StructureError::MissingDetails);
            assert_eq!(e.message(), "Estrutura InfNfse não encontrada".to_string());
        }
        _ => panic!("expected a structural error"),
    }
}

#[test]
fn malformed_source_is_a_parse_error() {
    assert!(matches!(convert("<R><ListaNfse>"), Err(ConvError::Parse(_))));
}

#[test]
fn absent_service_values_default_to_zero() {
    let out = convert(
        "<R><ListaNfse><CompNfse><Nfse><InfNfse><Numero>1</Numero></InfNfse></Nfse></CompNfse></ListaNfse></R>",
    )
    .unwrap();
    for tag in [
        "ValorServicos",
        "ValorDeducoes",
        "ValorPis",
        "ValorCofins",
        "ValorInss",
        "ValorIr",
        "ValorCsll",
        "IssRetido",
        "ValorIss",
        "OutrasRetencoes",
        "BaseCalculo",
        "Aliquota",
        "ValorLiquidoNfse",
        "DescontoIncondicionado",
        "DescontoCondicionado",
    ] {
        let want = format!("<{}>0.0</{}>", tag, tag);
        assert!(out.contains(&want), "missing {}", want);
    }
}

#[test]
fn numeric_values_pass_through_and_junk_defaults() {
    let out = convert(
        "<R><ListaNfse><CompNfse><Nfse><InfNfse><Servico><Valores><ValorServicos>1500.00</ValorServicos><ValorIss>abc</ValorIss></Valores></Servico></InfNfse></Nfse></CompNfse></ListaNfse></R>",
    )
    .unwrap();
    assert!(out.contains("<ValorServicos>1500.00</ValorServicos>"));
    assert!(out.contains("<ValorIss>0.0</ValorIss>"));
}

#[test]
fn absent_recipient_corporate_id_gets_generic_sentinel() {
    let out = convert(
        "<R><ListaNfse><CompNfse><Nfse><InfNfse><Numero>1</Numero></InfNfse></Nfse></CompNfse></ListaNfse></R>",
    )
    .unwrap();
    let tomador = out.find("<IdentificacaoTomador>").expect("recipient block present");
    let sentinel = out.find("<Cnpj>00000000000000</Cnpj>").expect("sentinel present");
    assert!(sentinel > tomador, "the sentinel belongs to the recipient block");
}

#[test]
fn service_defaults_applied() {
    let out = convert(
        "<R><ListaNfse><CompNfse><Nfse><InfNfse></InfNfse></Nfse></CompNfse></ListaNfse></R>",
    )
    .unwrap();
    assert!(out.contains("<ItemListaServico>1005</ItemListaServico>"));
    assert!(out.contains("<CodigoMunicipio>2602902</CodigoMunicipio>"));
    assert!(out.contains("<DataEmissao>2025-01-01T00:00:00</DataEmissao>"));
    assert!(out.contains("<Competencia>2025-01-01T00:00:00</Competencia>"));
    assert!(out.contains("<Numero>00000000</Numero>"));
    assert!(out.contains("<IntermediarioServico></IntermediarioServico>"));
    assert!(out.contains("<ContrucaoCivil></ContrucaoCivil>"));
}

#[test]
fn output_root_carries_fixed_namespaces() {
    let out = convert(
        "<R><ListaNfse><CompNfse><Nfse><InfNfse></InfNfse></Nfse></CompNfse></ListaNfse></R>",
    )
    .unwrap();
    assert!(out.starts_with("<?xml version=\"1.0\" encoding=\"UTF-8\"?>\n"));
    assert!(out.contains(
        "<ListaNotaFiscal xmlns=\"http://www.abrasf.org.br/nfse.xsd\" xmlns:ns2=\"http://www.w3.org/2000/09/xmldsig#\">"
    ));
}

#[test]
fn record_id_read_from_attribute() {
    let out = convert(
        "<R><ListaNfse><CompNfse><Nfse><InfNfse id=\"NF77\"></InfNfse></Nfse></CompNfse></ListaNfse></R>",
    )
    .unwrap();
    assert!(out.contains("<InfNfse Id=\"NF77\">"));
}

#[test]
fn record_id_falls_back_to_child_element() {
    let out = convert(
        "<R><ListaNfse><CompNfse><Nfse><InfNfse><Id>NF88</Id></InfNfse></Nfse></CompNfse></ListaNfse></R>",
    )
    .unwrap();
    assert!(out.contains("<InfNfse Id=\"NF88\">"));
}

#[test]
fn two_records_convert_in_source_order() {
    let src = "<ConsultarNfseResposta><ListaNfse>\
        <CompNfse><Nfse><InfNfse>\
            <Numero>42</Numero>\
            <Competencia>202505Z</Competencia>\
        </InfNfse></Nfse></CompNfse>\
        <CompNfse><Nfse><InfNfse id=\"N2\">\
            <Numero>123456789</Numero>\
            <CodigoVerificacao>VER2</CodigoVerificacao>\
            <DataEmissao>2024-12-31T23:59:59</DataEmissao>\
            <Competencia>2024-12-01T00:00:00</Competencia>\
            <Servico>\
                <Valores><ValorServicos>100.50</ValorServicos></Valores>\
                <ItemListaServico>1401</ItemListaServico>\
                <Discriminacao>Servico prestado</Discriminacao>\
            </Servico>\
            <TomadorServico>\
                <IdentificacaoTomador><CpfCnpj><Cnpj>11222333000144</Cnpj></CpfCnpj></IdentificacaoTomador>\
                <RazaoSocial>Cliente Ltda</RazaoSocial>\
            </TomadorServico>\
        </InfNfse></Nfse></CompNfse>\
    </ListaNfse></ConsultarNfseResposta>";
    let out = convert(src).unwrap();
    // exactly two record elements, in source order
    assert_eq!(out.matches("<Nfse>").count(), 2);
    let first = out.find("<Numero>00000042</Numero>").expect("padded first record");
    let second = out.find("<Numero>123456789</Numero>").expect("second record unchanged");
    assert!(first < second);
    // record 1: sentinel substitutions for everything omitted
    assert!(out.contains("<Competencia>2025-05-01T00:00:00</Competencia>"));
    assert!(out.contains("<InfNfse Id=\"\">"));
    assert!(out.contains("<Cnpj>00000000000000</Cnpj>"));
    // record 2: verbatim pass-through of present fields
    assert!(out.contains("<InfNfse Id=\"N2\">"));
    assert!(out.contains("<CodigoVerificacao>VER2</CodigoVerificacao>"));
    assert!(out.contains("<DataEmissao>2024-12-31T23:59:59</DataEmissao>"));
    assert!(out.contains("<Competencia>2024-12-01T00:00:00</Competencia>"));
    assert!(out.contains("<ValorServicos>100.50</ValorServicos>"));
    assert!(out.contains("<ItemListaServico>1401</ItemListaServico>"));
    assert!(out.contains("<Discriminacao>Servico prestado</Discriminacao>"));
    assert!(out.contains("<Cnpj>11222333000144</Cnpj>"));
    assert!(out.contains("<RazaoSocial>Cliente Ltda</RazaoSocial>"));
}

#[test]
fn namespace_prefixed_source_converts_by_local_name() {
    let src = "<ns3:ConsultarNfseResposta xmlns:ns3=\"http://www.abrasf.org.br/nfse.xsd\">\
        <ns3:ListaNfse><ns3:CompNfse><ns3:Nfse><ns3:InfNfse>\
            <ns3:Numero>99</ns3:Numero>\
        </ns3:InfNfse></ns3:Nfse></ns3:CompNfse></ns3:ListaNfse>\
    </ns3:ConsultarNfseResposta>";
    let out = convert(src).unwrap();
    assert!(out.contains("<Numero>00000099</Numero>"));
}

#[test]
fn converted_output_reparses() {
    let out = convert(
        "<R><ListaNfse><CompNfse><Nfse><InfNfse><Numero>5</Numero></InfNfse></Nfse></CompNfse></ListaNfse></R>",
    )
    .unwrap();
    let (tag, _root) = nfse_convert::parse::parse_document(&out).unwrap();
    assert_eq!(tag, "ListaNotaFiscal".to_string());
}
