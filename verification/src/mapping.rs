//! The field-mapping pipeline: walks a parsed source tree along fixed
//! paths, applies a per-field default or format correction, and assembles
//! the output tree in the fixed target shape.
//!
//! A missing intermediate node makes every field below it absent; absent
//! fields are defaulted, never errors.  Only two absences are structural
//! errors: the record collection itself, and a record's own details
//! element.

use crate::node::{
    elem_view, entries_view, lemma_entries_view, lemma_nodes_view, listed, lookup_attr,
    lookup_child, node_view, nodes_view, text_of, Elem, ElemV, Node, NodeV,
};
use crate::text::{decimal_text, digits_in_range, digits_range, is_decimal_str};
use vstd::prelude::*;
use vstd::string::StrSliceExecFns;
use vstd::string::StringExecFns;

verus! {

// ---------------------------------------------------------------------
// Default values, one authoritative definition per field rule.
// ---------------------------------------------------------------------
/// Sentinel timestamp substituted for an absent issue or competence date.
pub open spec fn default_timestamp() -> Seq<char> {
    "2025-01-01T00:00:00"@
}

/// Substituted for an absent sequence number.
pub open spec fn default_sequence() -> Seq<char> {
    "00000000"@
}

/// Substituted for an absent or non-numeric monetary value.
pub open spec fn default_money() -> Seq<char> {
    "0.0"@
}

/// Placeholder corporate id meaning "unknown taxpayer"; never a real id.
pub open spec fn generic_cnpj() -> Seq<char> {
    "00000000000000"@
}

/// Substituted for an absent service classification code.
pub open spec fn default_service_item() -> Seq<char> {
    "1005"@
}

/// Substituted for an absent service municipality code.
pub open spec fn default_municipality() -> Seq<char> {
    "2602902"@
}

// ---------------------------------------------------------------------
// Field extraction and per-field rules, at the specification level.
// ---------------------------------------------------------------------
/// Child lookup through an optional element.
pub open spec fn opt_child(o: Option<NodeV>, name: Seq<char>) -> Option<NodeV> {
    match o {
        Some(n) => lookup_child(n, name),
        None => None,
    }
}

/// Scalar content of an optional node.
pub open spec fn opt_text(o: Option<NodeV>) -> Option<Seq<char>> {
    match o {
        Some(n) => text_of(n),
        None => None,
    }
}

/// Scalar content of a named child of an optional element.
pub open spec fn field_text(o: Option<NodeV>, name: Seq<char>) -> Option<Seq<char>> {
    opt_text(opt_child(o, name))
}

pub open spec fn text_or(o: Option<Seq<char>>, d: Seq<char>) -> Seq<char> {
    match o {
        Some(s) => s,
        None => d,
    }
}

pub open spec fn text_or_empty(o: Option<Seq<char>>) -> Seq<char> {
    text_or(o, Seq::empty())
}

pub open spec fn zeros(n: nat) -> Seq<char> {
    Seq::new(n, |i: int| '0')
}

/// Sequence-number rule: absent defaults, short values are left-padded
/// with zeros to eight digits, longer values pass unchanged.
pub open spec fn padded_sequence(o: Option<Seq<char>>) -> Seq<char> {
    match o {
        Some(s) => if s.len() >= 8 {
            s
        } else {
            zeros((8 - s.len()) as nat) + s
        },
        None => default_sequence(),
    }
}

/// Issue-timestamp rule: absent defaults, present passes unchanged.
pub open spec fn timestamp_or_default(o: Option<Seq<char>>) -> Seq<char> {
    text_or(o, default_timestamp())
}

/// The non-standard compact encoding of a year-month period: six digits
/// followed by a literal `'Z'`.
pub open spec fn compact_period(s: Seq<char>) -> bool {
    s.len() == 7 && digits_range(s, 0, 6) && s[6] == 'Z'
}

/// The compact period rewritten as the first day of the month.
pub open spec fn expanded_period(s: Seq<char>) -> Seq<char> {
    s.subrange(0, 4) + "-"@ + s.subrange(4, 6) + "-01T00:00:00"@
}

/// Competence rule: the compact encoding is expanded, anything else
/// passes unchanged, absent defaults to the sentinel timestamp.
pub open spec fn competencia_of(o: Option<Seq<char>>) -> Seq<char> {
    match o {
        Some(s) => if compact_period(s) {
            expanded_period(s)
        } else {
            s
        },
        None => default_timestamp(),
    }
}

/// Monetary rule: a decimal numeral passes unchanged, anything absent or
/// non-numeric becomes zero.
pub open spec fn money_of(o: Option<Seq<char>>) -> Seq<char> {
    match o {
        Some(s) => if decimal_text(s) {
            s
        } else {
            default_money()
        },
        None => default_money(),
    }
}

/// Identifier rule: the record's own `id` attribute, then an `id` child
/// element, then an `Id` child element, then empty.
pub open spec fn record_id(inf: NodeV) -> Seq<char> {
    match lookup_attr(inf, "id"@) {
        Some(s) => s,
        None => match field_text(Some(inf), "id"@) {
            Some(s) => s,
            None => text_or_empty(field_text(Some(inf), "Id"@)),
        },
    }
}

// ---------------------------------------------------------------------
// The fixed target shape, at the specification level.
// ---------------------------------------------------------------------
pub open spec fn text_entry(name: Seq<char>, s: Seq<char>) -> (Seq<char>, NodeV) {
    (name, NodeV::Text(s))
}

pub open spec fn empty_elem() -> NodeV {
    NodeV::Elem(ElemV { attrs: Seq::empty(), children: Seq::empty() })
}

pub open spec fn out_valores(v: Option<NodeV>) -> NodeV {
    NodeV::Elem(
        ElemV {
            attrs: Seq::empty(),
            children: seq![
                text_entry("ValorServicos"@, money_of(field_text(v, "ValorServicos"@))),
                text_entry("ValorDeducoes"@, money_of(field_text(v, "ValorDeducoes"@))),
                text_entry("ValorPis"@, money_of(field_text(v, "ValorPis"@))),
                text_entry("ValorCofins"@, money_of(field_text(v, "ValorCofins"@))),
                text_entry("ValorInss"@, money_of(field_text(v, "ValorInss"@))),
                text_entry("ValorIr"@, money_of(field_text(v, "ValorIr"@))),
                text_entry("ValorCsll"@, money_of(field_text(v, "ValorCsll"@))),
                text_entry("IssRetido"@, money_of(field_text(v, "IssRetido"@))),
                text_entry("ValorIss"@, money_of(field_text(v, "ValorIss"@))),
                text_entry("OutrasRetencoes"@, money_of(field_text(v, "OutrasRetencoes"@))),
                text_entry("BaseCalculo"@, money_of(field_text(v, "BaseCalculo"@))),
                text_entry("Aliquota"@, money_of(field_text(v, "Aliquota"@))),
                text_entry("ValorLiquidoNfse"@, money_of(field_text(v, "ValorLiquidoNfse"@))),
                text_entry(
                    "DescontoIncondicionado"@,
                    money_of(field_text(v, "DescontoIncondicionado"@)),
                ),
                text_entry(
                    "DescontoCondicionado"@,
                    money_of(field_text(v, "DescontoCondicionado"@)),
                ),
            ],
        },
    )
}

pub open spec fn out_servico(s: Option<NodeV>) -> NodeV {
    NodeV::Elem(
        ElemV {
            attrs: Seq::empty(),
            children: seq![
                ("Valores"@, out_valores(opt_child(s, "Valores"@))),
                text_entry(
                    "ItemListaServico"@,
                    text_or(field_text(s, "ItemListaServico"@), default_service_item()),
                ),
                text_entry("CodigoCnae"@, text_or_empty(field_text(s, "CodigoCnae"@))),
                text_entry("Discriminacao"@, text_or_empty(field_text(s, "Discriminacao"@))),
                text_entry(
                    "CodigoMunicipio"@,
                    text_or(field_text(s, "CodigoMunicipio"@), default_municipality()),
                ),
            ],
        },
    )
}

pub open spec fn out_endereco(e: Option<NodeV>) -> NodeV {
    NodeV::Elem(
        ElemV {
            attrs: Seq::empty(),
            children: seq![
                text_entry("Endereco"@, text_or_empty(field_text(e, "Endereco"@))),
                text_entry("Numero"@, text_or_empty(field_text(e, "Numero"@))),
                text_entry("Complemento"@, text_or_empty(field_text(e, "Complemento"@))),
                text_entry("Bairro"@, text_or_empty(field_text(e, "Bairro"@))),
                text_entry("CodigoMunicipio"@, text_or_empty(field_text(e, "CodigoMunicipio"@))),
                text_entry("Uf"@, text_or_empty(field_text(e, "Uf"@))),
                text_entry("Cep"@, text_or_empty(field_text(e, "Cep"@))),
            ],
        },
    )
}

pub open spec fn out_contato(c: Option<NodeV>) -> NodeV {
    NodeV::Elem(
        ElemV {
            attrs: Seq::empty(),
            children: seq![
                text_entry("Telefone"@, text_or_empty(field_text(c, "Telefone"@))),
                text_entry("Email"@, text_or_empty(field_text(c, "Email"@))),
            ],
        },
    )
}

/// The provider identification block, from the source identification
/// element when present.
pub open spec fn out_ident_prestador(idp: Option<NodeV>) -> NodeV {
    NodeV::Elem(
        ElemV {
            attrs: Seq::empty(),
            children: seq![
                text_entry("Cnpj"@, text_or_empty(field_text(idp, "Cnpj"@))),
                text_entry(
                    "InscricaoMunicipal"@,
                    text_or_empty(field_text(idp, "InscricaoMunicipal"@)),
                ),
            ],
        },
    )
}

pub open spec fn out_prestador(p: Option<NodeV>) -> NodeV {
    NodeV::Elem(
        ElemV {
            attrs: Seq::empty(),
            children: seq![
                ("IdentificacaoPrestador"@, out_ident_prestador(opt_child(p, "IdentificacaoPrestador"@))),
                text_entry("RazaoSocial"@, text_or_empty(field_text(p, "RazaoSocial"@))),
                ("Endereco"@, out_endereco(opt_child(p, "Endereco"@))),
                ("Contato"@, out_contato(opt_child(p, "Contato"@))),
            ],
        },
    )
}

/// The recipient tax-id wrapper.  An absent corporate id becomes the
/// generic placeholder, never an empty string.
pub open spec fn out_cpf_cnpj(c: Option<NodeV>) -> NodeV {
    NodeV::Elem(
        ElemV {
            attrs: Seq::empty(),
            children: seq![
                text_entry("Cnpj"@, text_or(field_text(c, "Cnpj"@), generic_cnpj())),
            ],
        },
    )
}

/// The recipient identification block.
pub open spec fn out_ident_tomador(idt: Option<NodeV>) -> NodeV {
    NodeV::Elem(
        ElemV {
            attrs: Seq::empty(),
            children: seq![
                ("CpfCnpj"@, out_cpf_cnpj(opt_child(idt, "CpfCnpj"@))),
                text_entry(
                    "InscricaoMunicipal"@,
                    text_or_empty(field_text(idt, "InscricaoMunicipal"@)),
                ),
            ],
        },
    )
}

pub open spec fn out_tomador(t: Option<NodeV>) -> NodeV {
    NodeV::Elem(
        ElemV {
            attrs: Seq::empty(),
            children: seq![
                ("IdentificacaoTomador"@, out_ident_tomador(opt_child(t, "IdentificacaoTomador"@))),
                text_entry("RazaoSocial"@, text_or_empty(field_text(t, "RazaoSocial"@))),
                ("Endereco"@, out_endereco(opt_child(t, "Endereco"@))),
                ("Contato"@, out_contato(opt_child(t, "Contato"@))),
            ],
        },
    )
}

pub open spec fn out_orgao(o: Option<NodeV>) -> NodeV {
    NodeV::Elem(
        ElemV {
            attrs: Seq::empty(),
            children: seq![
                text_entry("CodigoMunicipio"@, text_or_empty(field_text(o, "CodigoMunicipio"@))),
                text_entry("Uf"@, text_or_empty(field_text(o, "Uf"@))),
            ],
        },
    )
}

/// The full output details element for one source record.
pub open spec fn out_inf(inf: NodeV) -> NodeV {
    NodeV::Elem(
        ElemV {
            attrs: seq![("Id"@, record_id(inf))],
            children: seq![
                text_entry("Numero"@, padded_sequence(field_text(Some(inf), "Numero"@))),
                text_entry(
                    "CodigoVerificacao"@,
                    text_or_empty(field_text(Some(inf), "CodigoVerificacao"@)),
                ),
                text_entry(
                    "DataEmissao"@,
                    timestamp_or_default(field_text(Some(inf), "DataEmissao"@)),
                ),
                text_entry(
                    "NaturezaOperacao"@,
                    text_or_empty(field_text(Some(inf), "NaturezaOperacao"@)),
                ),
                text_entry(
                    "OptanteSimplesNacional"@,
                    text_or_empty(field_text(Some(inf), "OptanteSimplesNacional"@)),
                ),
                text_entry(
                    "IncentivadorCultural"@,
                    text_or_empty(field_text(Some(inf), "IncentivadorCultural"@)),
                ),
                text_entry("Competencia"@, competencia_of(field_text(Some(inf), "Competencia"@))),
                ("Servico"@, out_servico(lookup_child(inf, "Servico"@))),
                ("PrestadorServico"@, out_prestador(lookup_child(inf, "PrestadorServico"@))),
                ("TomadorServico"@, out_tomador(lookup_child(inf, "TomadorServico"@))),
                ("OrgaoGerador"@, out_orgao(lookup_child(inf, "OrgaoGerador"@))),
                ("IntermediarioServico"@, empty_elem()),
                ("ContrucaoCivil"@, empty_elem()),
            ],
        },
    )
}

/// The output record wrapper holding one details element.
pub open spec fn out_record(inf: NodeV) -> NodeV {
    NodeV::Elem(ElemV { attrs: Seq::empty(), children: seq![("InfNfse"@, out_inf(inf))] })
}

/// The output document root: the two fixed namespace declarations and the
/// record list.
pub open spec fn out_document(records: Seq<NodeV>) -> NodeV {
    NodeV::Elem(
        ElemV {
            attrs: seq![
                ("xmlns"@, "http://www.abrasf.org.br/nfse.xsd"@),
                ("xmlns:ns2"@, "http://www.w3.org/2000/09/xmldsig#"@),
            ],
            children: seq![("Nfse"@, NodeV::List(records))],
        },
    )
}

// ---------------------------------------------------------------------
// Document-level mapping, at the specification level.
// ---------------------------------------------------------------------
/// The details element of one record wrapper, when it is present.
pub open spec fn record_inf(comp: NodeV) -> Option<NodeV> {
    opt_child(lookup_child(comp, "Nfse"@), "InfNfse"@)
}

/// All records mapped, or `None` when some record lacks its details.
pub open spec fn map_comps(comps: Seq<NodeV>) -> Option<Seq<NodeV>> {
    if forall|i: int| 0 <= i < comps.len() ==> record_inf(#[trigger] comps[i]) is Some {
        Some(Seq::new(comps.len(), |i: int| out_record(record_inf(comps[i])->0)))
    } else {
        None
    }
}

/// The possibly-repeated record collection of the source document.
pub open spec fn source_comps(root: NodeV) -> Option<NodeV> {
    opt_child(lookup_child(root, "ListaNfse"@), "CompNfse"@)
}

/// A structural failure of the conversion: the document carries no record
/// collection, or a record carries no details element.
#[derive(Clone, Copy, Debug, PartialEq, Eq, Structural)]
pub enum StructureError {
    MissingRecords,
    MissingDetails,
}

impl StructureError {
    pub open spec fn message_v(self) -> Seq<char> {
        match self {
            StructureError::MissingRecords => "Não foram encontradas notas fiscais no XML"@,
            StructureError::MissingDetails => "Estrutura InfNfse não encontrada"@,
        }
    }

    /// The fixed descriptive message for this failure.
    pub fn message(&self) -> (r: String)
        ensures
            r@ == self.message_v(),
    {
        match self {
            StructureError::MissingRecords => "Não foram encontradas notas fiscais no XML"
                .to_owned(),
            StructureError::MissingDetails => "Estrutura InfNfse não encontrada".to_owned(),
        }
    }
}

/// The whole mapping stage: source root in, output root or structural
/// error out.
pub open spec fn map_document_v(root: NodeV) -> Result<NodeV, StructureError> {
    match source_comps(root) {
        None => Err(StructureError::MissingRecords),
        Some(c) => match map_comps(listed(c)) {
            None => Err(StructureError::MissingDetails),
            Some(records) => Ok(out_document(records)),
        },
    }
}

/// Multiplicity-normalisation invariance: a source document whose record
/// collection is one bare record maps exactly as a document whose
/// collection is that same record wrapped in a one-element list.
pub proof fn lemma_single_record_invariance(root1: NodeV, root2: NodeV, c: NodeV)
    requires
        !(c is List),
        source_comps(root1) == Some(c),
        source_comps(root2) == Some(NodeV::List(seq![c])),
    ensures
        map_document_v(root1) == map_document_v(root2),
{
    assert(listed(c) =~= seq![c]);
    assert(listed(NodeV::List(seq![c])) =~= seq![c]);
}

// ---------------------------------------------------------------------
// Executable field rules.
// ---------------------------------------------------------------------
pub open spec fn opt_view(o: Option<&Node>) -> Option<NodeV> {
    match o {
        Some(n) => Some(node_view(*n)),
        None => None,
    }
}

/// Child lookup through an optional element.
fn child_of<'a>(n: Option<&'a Node>, name: &str) -> (r: Option<&'a Node>)
    ensures
        opt_view(r) == opt_child(opt_view(n), name@),
{
    match n {
        Some(node) => node.get_child(name),
        None => None,
    }
}

/// Scalar content of a named child, cloned out of the tree.
fn text_field(n: Option<&Node>, name: &str) -> (r: Option<String>)
    ensures
        r.deep_view() == field_text(opt_view(n), name@),
{
    match child_of(n, name) {
        Some(c) => match c.get_text() {
            Some(s) => Some(s.clone()),
            None => None,
        },
        None => None,
    }
}

/// A named child's text, or the given default when absent.
fn text_field_or(n: Option<&Node>, name: &str, d: &str) -> (r: String)
    ensures
        r@ == text_or(field_text(opt_view(n), name@), d@),
{
    match text_field(n, name) {
        Some(s) => s,
        None => d.to_owned(),
    }
}

/// A named child's text, or empty when absent.
fn text_field_or_empty(n: Option<&Node>, name: &str) -> (r: String)
    ensures
        r@ == text_or_empty(field_text(opt_view(n), name@)),
{
    match text_field(n, name) {
        Some(s) => s,
        None => String::new(),
    }
}

/// A named child's text under the monetary rule.
fn money_field(n: Option<&Node>, name: &str) -> (r: String)
    ensures
        r@ == money_of(field_text(opt_view(n), name@)),
{
    match text_field(n, name) {
        Some(s) => {
            if is_decimal_str(s.as_str()) {
                s
            } else {
                "0.0".to_owned()
            }
        },
        None => "0.0".to_owned(),
    }
}

/// Left-pads a sequence number with zeros to a minimum width of eight
/// digits; an absent number becomes the all-zero default.
pub fn format_numero_nota(numero: Option<String>) -> (r: String)
    ensures
        r@ == padded_sequence(numero.deep_view()),
{
    match numero {
        Some(num) => {
            let len = num.as_str().unicode_len();
            if len >= 8 {
                num
            } else {
                let mut r = String::new();
                let mut k: usize = 0;
                while k < 8 - len
                    invariant
                        len == num@.len(),
                        len < 8,
                        0 <= k <= 8 - len,
                        r@ == zeros(k as nat),
                    decreases 8 - len - k,
                {
                    r.append("0");
                    proof {
                        reveal_strlit("0");
                        assert(r@ =~= zeros((k + 1) as nat));
                    }
                    k = k + 1;
                }
                r.append(num.as_str());
                r
            }
        },
        None => "00000000".to_owned(),
    }
}

/// Rewrites a compact year-month competence (six digits and a `'Z'`) as
/// the first day of that month; any other present value passes unchanged;
/// an absent value becomes the sentinel timestamp.
pub fn format_competencia(competencia: Option<String>) -> (r: String)
    ensures
        r@ == competencia_of(competencia.deep_view()),
{
    match competencia {
        Some(c) => {
            let len = c.as_str().unicode_len();
            if len == 7 && digits_in_range(c.as_str(), 0, 6) && c.as_str().get_char(6) == 'Z' {
                let mut out = c.as_str().substring_char(0, 4).to_owned();
                out.append("-");
                out.append(c.as_str().substring_char(4, 6));
                out.append("-01T00:00:00");
                proof {
                    assert(out@ =~= expanded_period(c@));
                }
                out
            } else {
                c
            }
        },
        None => "2025-01-01T00:00:00".to_owned(),
    }
}

// ---------------------------------------------------------------------
// Executable construction of the target shape.
// ---------------------------------------------------------------------
/// An element node equals a spec element once both field views agree.
proof fn lemma_node_elem(r: Node, o: NodeV)
    requires
        r is Elem,
        o is Elem,
        crate::node::attrs_view(r->0.attrs@) =~= o->0.attrs,
        entries_view(r->0.children@) =~= o->0.children,
    ensures
        node_view(r) == o,
{
    assert(node_view(r) == NodeV::Elem(elem_view(r->0)));
    assert(elem_view(r->0) =~= o->0);
    match o {
        NodeV::Elem(x) => {
            assert(o == NodeV::Elem(x));
        },
        _ => {
            assert(false);
        },
    }
}

/// One scalar child entry of the output.
fn t_entry(name: &str, s: String) -> (r: (String, Node))
    ensures
        r.0@ == name@,
        r.1@ == NodeV::Text(s@),
{
    (name.to_owned(), Node::Text(s))
}

/// An element with no attributes and no children.
fn build_empty() -> (r: Node)
    ensures
        r@ == empty_elem(),
{
    let r = Node::Elem(Elem { attrs: Vec::new(), children: Vec::new() });
    proof {
        let o = empty_elem();
        assert(crate::node::attrs_view(r->0.attrs@) =~= o->0.attrs);
        assert(entries_view(r->0.children@) =~= o->0.children);
        lemma_node_elem(r, o);
    }
    r
}

fn build_valores(v: Option<&Node>) -> (r: Node)
    ensures
        r@ == out_valores(opt_view(v)),
{
    let mut cs: Vec<(String, Node)> = Vec::new();
    cs.push(t_entry("ValorServicos", money_field(v, "ValorServicos")));
    cs.push(t_entry("ValorDeducoes", money_field(v, "ValorDeducoes")));
    cs.push(t_entry("ValorPis", money_field(v, "ValorPis")));
    cs.push(t_entry("ValorCofins", money_field(v, "ValorCofins")));
    cs.push(t_entry("ValorInss", money_field(v, "ValorInss")));
    cs.push(t_entry("ValorIr", money_field(v, "ValorIr")));
    cs.push(t_entry("ValorCsll", money_field(v, "ValorCsll")));
    cs.push(t_entry("IssRetido", money_field(v, "IssRetido")));
    cs.push(t_entry("ValorIss", money_field(v, "ValorIss")));
    cs.push(t_entry("OutrasRetencoes", money_field(v, "OutrasRetencoes")));
    cs.push(t_entry("BaseCalculo", money_field(v, "BaseCalculo")));
    cs.push(t_entry("Aliquota", money_field(v, "Aliquota")));
    cs.push(t_entry("ValorLiquidoNfse", money_field(v, "ValorLiquidoNfse")));
    cs.push(t_entry("DescontoIncondicionado", money_field(v, "DescontoIncondicionado")));
    cs.push(t_entry("DescontoCondicionado", money_field(v, "DescontoCondicionado")));
    let r = Node::Elem(Elem { attrs: Vec::new(), children: cs });
    proof {
        lemma_entries_view(r->0.children@);
        let o = out_valores(opt_view(v));
        assert(crate::node::attrs_view(r->0.attrs@) =~= o->0.attrs);
        assert(entries_view(r->0.children@) =~= o->0.children);
        lemma_node_elem(r, o);
    }
    r
}

fn build_servico(s: Option<&Node>) -> (r: Node)
    ensures
        r@ == out_servico(opt_view(s)),
{
    let valores = child_of(s, "Valores");
    let mut cs: Vec<(String, Node)> = Vec::new();
    cs.push(("Valores".to_owned(), build_valores(valores)));
    cs.push(t_entry("ItemListaServico", text_field_or(s, "ItemListaServico", "1005")));
    cs.push(t_entry("CodigoCnae", text_field_or_empty(s, "CodigoCnae")));
    cs.push(t_entry("Discriminacao", text_field_or_empty(s, "Discriminacao")));
    cs.push(t_entry("CodigoMunicipio", text_field_or(s, "CodigoMunicipio", "2602902")));
    let r = Node::Elem(Elem { attrs: Vec::new(), children: cs });
    proof {
        lemma_entries_view(r->0.children@);
        let o = out_servico(opt_view(s));
        assert(crate::node::attrs_view(r->0.attrs@) =~= o->0.attrs);
        assert(entries_view(r->0.children@) =~= o->0.children);
        lemma_node_elem(r, o);
    }
    r
}

fn build_endereco(e: Option<&Node>) -> (r: Node)
    ensures
        r@ == out_endereco(opt_view(e)),
{
    let mut cs: Vec<(String, Node)> = Vec::new();
    cs.push(t_entry("Endereco", text_field_or_empty(e, "Endereco")));
    cs.push(t_entry("Numero", text_field_or_empty(e, "Numero")));
    cs.push(t_entry("Complemento", text_field_or_empty(e, "Complemento")));
    cs.push(t_entry("Bairro", text_field_or_empty(e, "Bairro")));
    cs.push(t_entry("CodigoMunicipio", text_field_or_empty(e, "CodigoMunicipio")));
    cs.push(t_entry("Uf", text_field_or_empty(e, "Uf")));
    cs.push(t_entry("Cep", text_field_or_empty(e, "Cep")));
    let r = Node::Elem(Elem { attrs: Vec::new(), children: cs });
    proof {
        lemma_entries_view(r->0.children@);
        let o = out_endereco(opt_view(e));
        assert(crate::node::attrs_view(r->0.attrs@) =~= o->0.attrs);
        assert(entries_view(r->0.children@) =~= o->0.children);
        lemma_node_elem(r, o);
    }
    r
}

fn build_contato(c: Option<&Node>) -> (r: Node)
    ensures
        r@ == out_contato(opt_view(c)),
{
    let mut cs: Vec<(String, Node)> = Vec::new();
    cs.push(t_entry("Telefone", text_field_or_empty(c, "Telefone")));
    cs.push(t_entry("Email", text_field_or_empty(c, "Email")));
    let r = Node::Elem(Elem { attrs: Vec::new(), children: cs });
    proof {
        lemma_entries_view(r->0.children@);
        let o = out_contato(opt_view(c));
        assert(crate::node::attrs_view(r->0.attrs@) =~= o->0.attrs);
        assert(entries_view(r->0.children@) =~= o->0.children);
        lemma_node_elem(r, o);
    }
    r
}

fn build_ident_prestador(idp: Option<&Node>) -> (r: Node)
    ensures
        r@ == out_ident_prestador(opt_view(idp)),
{
    let mut cs: Vec<(String, Node)> = Vec::new();
    cs.push(t_entry("Cnpj", text_field_or_empty(idp, "Cnpj")));
    cs.push(t_entry("InscricaoMunicipal", text_field_or_empty(idp, "InscricaoMunicipal")));
    let r = Node::Elem(Elem { attrs: Vec::new(), children: cs });
    proof {
        lemma_entries_view(r->0.children@);
        let o = out_ident_prestador(opt_view(idp));
        assert(crate::node::attrs_view(r->0.attrs@) =~= o->0.attrs);
        assert(entries_view(r->0.children@) =~= o->0.children);
        lemma_node_elem(r, o);
    }
    r
}

fn build_prestador(p: Option<&Node>) -> (r: Node)
    ensures
        r@ == out_prestador(opt_view(p)),
{
    let mut cs: Vec<(String, Node)> = Vec::new();
    cs.push(
        (
            "IdentificacaoPrestador".to_owned(),
            build_ident_prestador(child_of(p, "IdentificacaoPrestador")),
        ),
    );
    cs.push(t_entry("RazaoSocial", text_field_or_empty(p, "RazaoSocial")));
    cs.push(("Endereco".to_owned(), build_endereco(child_of(p, "Endereco"))));
    cs.push(("Contato".to_owned(), build_contato(child_of(p, "Contato"))));
    let r = Node::Elem(Elem { attrs: Vec::new(), children: cs });
    proof {
        lemma_entries_view(r->0.children@);
        let o = out_prestador(opt_view(p));
        assert(crate::node::attrs_view(r->0.attrs@) =~= o->0.attrs);
        assert(entries_view(r->0.children@) =~= o->0.children);
        lemma_node_elem(r, o);
    }
    r
}

fn build_cpf_cnpj(c: Option<&Node>) -> (r: Node)
    ensures
        r@ == out_cpf_cnpj(opt_view(c)),
{
    let mut cs: Vec<(String, Node)> = Vec::new();
    cs.push(t_entry("Cnpj", text_field_or(c, "Cnpj", "00000000000000")));
    let r = Node::Elem(Elem { attrs: Vec::new(), children: cs });
    proof {
        lemma_entries_view(r->0.children@);
        let o = out_cpf_cnpj(opt_view(c));
        assert(crate::node::attrs_view(r->0.attrs@) =~= o->0.attrs);
        assert(entries_view(r->0.children@) =~= o->0.children);
        lemma_node_elem(r, o);
    }
    r
}

fn build_ident_tomador(idt: Option<&Node>) -> (r: Node)
    ensures
        r@ == out_ident_tomador(opt_view(idt)),
{
    let mut cs: Vec<(String, Node)> = Vec::new();
    cs.push(("CpfCnpj".to_owned(), build_cpf_cnpj(child_of(idt, "CpfCnpj"))));
    cs.push(t_entry("InscricaoMunicipal", text_field_or_empty(idt, "InscricaoMunicipal")));
    let r = Node::Elem(Elem { attrs: Vec::new(), children: cs });
    proof {
        lemma_entries_view(r->0.children@);
        let o = out_ident_tomador(opt_view(idt));
        assert(crate::node::attrs_view(r->0.attrs@) =~= o->0.attrs);
        assert(entries_view(r->0.children@) =~= o->0.children);
        lemma_node_elem(r, o);
    }
    r
}

fn build_tomador(t: Option<&Node>) -> (r: Node)
    ensures
        r@ == out_tomador(opt_view(t)),
{
    let mut cs: Vec<(String, Node)> = Vec::new();
    cs.push(
        ("IdentificacaoTomador".to_owned(), build_ident_tomador(child_of(t, "IdentificacaoTomador"))),
    );
    cs.push(t_entry("RazaoSocial", text_field_or_empty(t, "RazaoSocial")));
    cs.push(("Endereco".to_owned(), build_endereco(child_of(t, "Endereco"))));
    cs.push(("Contato".to_owned(), build_contato(child_of(t, "Contato"))));
    let r = Node::Elem(Elem { attrs: Vec::new(), children: cs });
    proof {
        lemma_entries_view(r->0.children@);
        let o = out_tomador(opt_view(t));
        assert(crate::node::attrs_view(r->0.attrs@) =~= o->0.attrs);
        assert(entries_view(r->0.children@) =~= o->0.children);
        lemma_node_elem(r, o);
    }
    r
}

fn build_orgao(o: Option<&Node>) -> (r: Node)
    ensures
        r@ == out_orgao(opt_view(o)),
{
    let mut cs: Vec<(String, Node)> = Vec::new();
    cs.push(t_entry("CodigoMunicipio", text_field_or_empty(o, "CodigoMunicipio")));
    cs.push(t_entry("Uf", text_field_or_empty(o, "Uf")));
    let r = Node::Elem(Elem { attrs: Vec::new(), children: cs });
    proof {
        lemma_entries_view(r->0.children@);
        let ov = out_orgao(opt_view(o));
        assert(crate::node::attrs_view(r->0.attrs@) =~= ov->0.attrs);
        assert(entries_view(r->0.children@) =~= ov->0.children);
        lemma_node_elem(r, ov);
    }
    r
}

/// Builds the output details element for one source details element,
/// applying every per-field rule.
fn build_inf(inf: &Node) -> (r: Node)
    ensures
        r@ == out_inf(inf@),
{
    let id = match inf.get_attr("id") {
        Some(s) => s.clone(),
        None => match text_field(Some(inf), "id") {
            Some(s) => s,
            None => text_field_or_empty(Some(inf), "Id"),
        },
    };
    let mut attrs: Vec<(String, String)> = Vec::new();
    attrs.push(("Id".to_owned(), id));
    let mut cs: Vec<(String, Node)> = Vec::new();
    cs.push(t_entry("Numero", format_numero_nota(text_field(Some(inf), "Numero"))));
    cs.push(t_entry("CodigoVerificacao", text_field_or_empty(Some(inf), "CodigoVerificacao")));
    cs.push(
        t_entry("DataEmissao", text_field_or(Some(inf), "DataEmissao", "2025-01-01T00:00:00")),
    );
    cs.push(t_entry("NaturezaOperacao", text_field_or_empty(Some(inf), "NaturezaOperacao")));
    cs.push(
        t_entry("OptanteSimplesNacional", text_field_or_empty(Some(inf), "OptanteSimplesNacional")),
    );
    cs.push(
        t_entry("IncentivadorCultural", text_field_or_empty(Some(inf), "IncentivadorCultural")),
    );
    cs.push(t_entry("Competencia", format_competencia(text_field(Some(inf), "Competencia"))));
    cs.push(("Servico".to_owned(), build_servico(inf.get_child("Servico"))));
    cs.push(("PrestadorServico".to_owned(), build_prestador(inf.get_child("PrestadorServico"))));
    cs.push(("TomadorServico".to_owned(), build_tomador(inf.get_child("TomadorServico"))));
    cs.push(("OrgaoGerador".to_owned(), build_orgao(inf.get_child("OrgaoGerador"))));
    cs.push(("IntermediarioServico".to_owned(), build_empty()));
    cs.push(("ContrucaoCivil".to_owned(), build_empty()));
    let r = Node::Elem(Elem { attrs, children: cs });
    proof {
        lemma_entries_view(r->0.children@);
        let o = out_inf(inf@);
        assert(crate::node::attrs_view(r->0.attrs@) =~= o->0.attrs);
        assert(entries_view(r->0.children@) =~= o->0.children);
        lemma_node_elem(r, o);
    }
    r
}

/// Maps one source details element to the output record wrapper.
pub fn map_record(inf: &Node) -> (r: Node)
    ensures
        r@ == out_record(inf@),
{
    let mut cs: Vec<(String, Node)> = Vec::new();
    cs.push(("InfNfse".to_owned(), build_inf(inf)));
    let r = Node::Elem(Elem { attrs: Vec::new(), children: cs });
    proof {
        lemma_entries_view(r->0.children@);
        let o = out_record(inf@);
        assert(crate::node::attrs_view(r->0.attrs@) =~= o->0.attrs);
        assert(entries_view(r->0.children@) =~= o->0.children);
        lemma_node_elem(r, o);
    }
    r
}

/// The details element of one record wrapper, or the structural error
/// when it is missing.
fn comp_inf<'a>(comp: &'a Node) -> (r: Result<&'a Node, StructureError>)
    ensures
        match r {
            Ok(inf) => record_inf(comp@) == Some(inf@),
            Err(e) => record_inf(comp@) is None && e == StructureError::MissingDetails,
        },
{
    match comp.get_child("Nfse") {
        Some(nf) => match nf.get_child("InfNfse") {
            Some(inf) => Ok(inf),
            None => Err(StructureError::MissingDetails),
        },
        None => Err(StructureError::MissingDetails),
    }
}

/// Maps a whole source document: locates the record collection,
/// normalises its multiplicity, maps every record, and assembles the
/// output root.  Fails exactly when the collection is absent or a record
/// lacks its details element.
pub fn map_document(root: &Node) -> (r: Result<Node, StructureError>)
    ensures
        match r {
            Ok(n) => map_document_v(root@) == Ok::<NodeV, StructureError>(n@),
            Err(e) => map_document_v(root@) == Err::<NodeV, StructureError>(e),
        },
{
    let lista = match root.get_child("ListaNfse") {
        Some(l) => l,
        None => {
            return Err(StructureError::MissingRecords);
        },
    };
    let comps_node = match lista.get_child("CompNfse") {
        Some(c) => c,
        None => {
            return Err(StructureError::MissingRecords);
        },
    };
    proof {
        assert(source_comps(root@) == Some(comps_node@));
    }
    let ghost cv = listed(comps_node@);
    let mut records: Vec<Node> = Vec::new();
    match comps_node {
        Node::List(items) => {
            proof {
                lemma_nodes_view(items@);
            }
            let n = items.len();
            let mut i: usize = 0;
            while i < n
                invariant
                    n == items@.len(),
                    0 <= i <= n,
                    source_comps(root@) == Some(comps_node@),
                    comps_node@ == NodeV::List(nodes_view(items@)),
                    cv == nodes_view(items@),
                    cv.len() == n,
                    forall|j: int| 0 <= j < n ==> #[trigger] cv[j] == node_view(items@[j]),
                    forall|j: int| 0 <= j < i ==> record_inf(#[trigger] cv[j]) is Some,
                    records@.len() == i,
                    forall|j: int|
                        0 <= j < i ==> node_view(#[trigger] records@[j]) == out_record(
                            record_inf(cv[j])->0,
                        ),
                decreases n - i,
            {
                let inf = match comp_inf(&items[i]) {
                    Ok(inf) => inf,
                    Err(e) => {
                        proof {
                            assert(record_inf(cv[i as int]) is None);
                            assert(!(forall|j: int|
                                0 <= j < cv.len() ==> record_inf(#[trigger] cv[j]) is Some));
                            assert(map_comps(cv) is None);
                        }
                        return Err(e);
                    },
                };
                records.push(map_record(inf));
                i = i + 1;
            }
        },
        single => {
            proof {
                assert(cv =~= seq![comps_node@]);
            }
            let inf = match comp_inf(single) {
                Ok(inf) => inf,
                Err(e) => {
                    proof {
                        assert(record_inf(cv[0]) is None);
                        assert(!(forall|j: int|
                            0 <= j < cv.len() ==> record_inf(#[trigger] cv[j]) is Some));
                        assert(map_comps(cv) is None);
                    }
                    return Err(e);
                },
            };
            records.push(map_record(inf));
        },
    }
    proof {
        lemma_nodes_view(records@);
        assert(map_comps(cv) == Some(
            Seq::new(cv.len(), |i: int| out_record(record_inf(cv[i])->0)),
        ));
        assert(nodes_view(records@) =~= map_comps(cv)->0);
    }
    let out_list = Node::List(records);
    let mut attrs: Vec<(String, String)> = Vec::new();
    attrs.push(("xmlns".to_owned(), "http://www.abrasf.org.br/nfse.xsd".to_owned()));
    attrs.push(("xmlns:ns2".to_owned(), "http://www.w3.org/2000/09/xmldsig#".to_owned()));
    let mut cs: Vec<(String, Node)> = Vec::new();
    cs.push(("Nfse".to_owned(), out_list));
    let r = Node::Elem(Elem { attrs, children: cs });
    proof {
        lemma_entries_view(r->0.children@);
        let o = out_document(map_comps(cv)->0);
        assert(crate::node::attrs_view(r->0.attrs@) =~= o->0.attrs);
        assert(entries_view(r->0.children@) =~= o->0.children);
        lemma_node_elem(r, o);
    }
    Ok(r)
}

} // verus!
