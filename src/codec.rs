use vstd::prelude::*;

use crate::catalog::PropertyId;
use crate::error::ProtocolError;
use crate::graph::{CsrLayout, Orientation};
use crate::wire::{
    be8, enc_str, lemma_parse_str, lemma_parse_u64, parse_byte, parse_str, parse_u64, push_str,
    push_u64, read_byte, read_str, read_u64, str_fits,
};

verus! {

/// Parameters of a PageRank run. The two real numbers travel as their IEEE-754 bits.
#[derive(Clone, Copy, Debug, PartialEq, Eq, Structural)]
pub struct PageRankConfig {
    pub max_iterations: u64,
    pub tolerance_bits: u64,
    pub damping_factor_bits: u32,
}

/// The algorithm that a compute request selects.
#[derive(Clone, Copy, Debug, PartialEq, Eq, Structural)]
pub enum Algorithm {
    PageRank(PageRankConfig),
    TriangleCount,
}

/// The on-disk formats a graph can be loaded from.
#[derive(Clone, Copy, Debug, PartialEq, Eq, Structural)]
pub enum FileFormat {
    EdgeList,
    Graph500,
}

/// Runs an algorithm on a stored graph and keeps its result under a property key.
pub struct ComputeConfig {
    pub graph_name: String,
    pub algorithm: Algorithm,
    pub property_key: String,
}

impl View for ComputeConfig {
    type V = (Seq<char>, Algorithm, Seq<char>);

    open spec fn view(&self) -> (Seq<char>, Algorithm, Seq<char>) {
        (self.graph_name@, self.algorithm, self.property_key@)
    }
}

/// Describes a graph whose edges are pushed as a stream.
pub struct CreateGraphCommand {
    pub graph_name: String,
    pub edge_count: u64,
    pub csr_layout: CsrLayout,
    pub orientation: Orientation,
}

impl View for CreateGraphCommand {
    type V = (Seq<char>, u64, CsrLayout, Orientation);

    open spec fn view(&self) -> (Seq<char>, u64, CsrLayout, Orientation) {
        (self.graph_name@, self.edge_count, self.csr_layout, self.orientation)
    }
}

/// Describes a graph to load from a file.
pub struct CreateGraphFromFileConfig {
    pub graph_name: String,
    pub file_format: FileFormat,
    pub path: String,
    pub csr_layout: CsrLayout,
    pub orientation: Orientation,
}

impl View for CreateGraphFromFileConfig {
    type V = (Seq<char>, FileFormat, Seq<char>, CsrLayout, Orientation);

    open spec fn view(&self) -> (Seq<char>, FileFormat, Seq<char>, CsrLayout, Orientation) {
        (self.graph_name@, self.file_format, self.path@, self.csr_layout, self.orientation)
    }
}

/// A decoded action.
pub enum FlightAction {
    Create(CreateGraphFromFileConfig),
    Compute(ComputeConfig),
}

pub open spec fn layout_byte(l: CsrLayout) -> u8 {
    match l {
        CsrLayout::Unsorted => 0,
        CsrLayout::Sorted => 1,
        CsrLayout::Deduplicated => 2,
    }
}

pub open spec fn layout_of(b: u8) -> Option<CsrLayout> {
    if b == 0 {
        Some(CsrLayout::Unsorted)
    } else if b == 1 {
        Some(CsrLayout::Sorted)
    } else if b == 2 {
        Some(CsrLayout::Deduplicated)
    } else {
        None
    }
}

pub open spec fn orientation_byte(o: Orientation) -> u8 {
    match o {
        Orientation::Directed => 0,
        Orientation::Undirected => 1,
    }
}

pub open spec fn orientation_of(b: u8) -> Option<Orientation> {
    if b == 0 {
        Some(Orientation::Directed)
    } else if b == 1 {
        Some(Orientation::Undirected)
    } else {
        None
    }
}

pub open spec fn format_byte(f: FileFormat) -> u8 {
    match f {
        FileFormat::EdgeList => 0,
        FileFormat::Graph500 => 1,
    }
}

pub open spec fn format_of(b: u8) -> Option<FileFormat> {
    if b == 0 {
        Some(FileFormat::EdgeList)
    } else if b == 1 {
        Some(FileFormat::Graph500)
    } else {
        None
    }
}

/// An algorithm on the wire: a tag byte, then for PageRank its three parameters.
pub open spec fn enc_algorithm(a: Algorithm) -> Seq<u8> {
    match a {
        Algorithm::PageRank(c) => seq![0u8] + be8(c.max_iterations) + be8(c.tolerance_bits) + be8(
            c.damping_factor_bits as u64,
        ),
        Algorithm::TriangleCount => seq![1u8],
    }
}

pub open spec fn enc_compute(v: (Seq<char>, Algorithm, Seq<char>)) -> Seq<u8> {
    enc_str(v.0) + enc_algorithm(v.1) + enc_str(v.2)
}

pub open spec fn enc_command(v: (Seq<char>, u64, CsrLayout, Orientation)) -> Seq<u8> {
    enc_str(v.0) + be8(v.1) + seq![layout_byte(v.2), orientation_byte(v.3)]
}

pub open spec fn enc_create(v: (Seq<char>, FileFormat, Seq<char>, CsrLayout, Orientation)) -> Seq<
    u8,
> {
    enc_str(v.0) + seq![format_byte(v.1)] + enc_str(v.2) + seq![
        layout_byte(v.3),
        orientation_byte(v.4),
    ]
}

pub open spec fn enc_ticket(v: (Seq<char>, Seq<char>)) -> Seq<u8> {
    enc_str(v.0) + enc_str(v.1)
}

pub open spec fn parse_algorithm(b: Seq<u8>, pos: int) -> Option<(Algorithm, int)> {
    match parse_byte(b, pos) {
        Some((t, p)) => if t == 1 {
            Some((Algorithm::TriangleCount, p))
        } else if t == 0 {
            match parse_u64(b, p) {
                Some((it, pos1)) => match parse_u64(b, pos1) {
                    Some((tol, pos2)) => match parse_u64(b, pos2) {
                        Some((d, pos3)) => if d <= u32::MAX {
                            Some(
                                (
                                    Algorithm::PageRank(
                                        PageRankConfig {
                                            max_iterations: it,
                                            tolerance_bits: tol,
                                            damping_factor_bits: d as u32,
                                        },
                                    ),
                                    pos3,
                                ),
                            )
                        } else {
                            None
                        },
                        None => None,
                    },
                    None => None,
                },
                None => None,
            }
        } else {
            None
        },
        None => None,
    }
}

/// What a compute body decodes to; `None` where it is malformed or has bytes left over.
pub open spec fn parse_compute(b: Seq<u8>) -> Option<(Seq<char>, Algorithm, Seq<char>)> {
    match parse_str(b, 0) {
        Some((g, pos1)) => match parse_algorithm(b, pos1) {
            Some((a, pos2)) => match parse_str(b, pos2) {
                Some((k, pos3)) => if pos3 == b.len() {
                    Some((g, a, k))
                } else {
                    None
                },
                None => None,
            },
            None => None,
        },
        None => None,
    }
}

/// What a graph command decodes to; `None` where it is malformed or has bytes left over.
pub open spec fn parse_command(b: Seq<u8>) -> Option<(Seq<char>, u64, CsrLayout, Orientation)> {
    match parse_str(b, 0) {
        Some((g, pos1)) => match parse_u64(b, pos1) {
            Some((n, pos2)) => if pos2 + 2 == b.len() && layout_of(b[pos2]) is Some && orientation_of(
                b[pos2 + 1],
            ) is Some {
                Some((g, n, layout_of(b[pos2]).unwrap(), orientation_of(b[pos2 + 1]).unwrap()))
            } else {
                None
            },
            None => None,
        },
        None => None,
    }
}

/// What a create body decodes to; `None` where it is malformed or has bytes left over.
pub open spec fn parse_create(b: Seq<u8>) -> Option<
    (Seq<char>, FileFormat, Seq<char>, CsrLayout, Orientation),
> {
    match parse_str(b, 0) {
        Some((g, pos1)) => match parse_byte(b, pos1) {
            Some((f, pos2)) => match parse_str(b, pos2) {
                Some((path, pos3)) => if pos3 + 2 == b.len() && format_of(f) is Some && layout_of(
                    b[pos3],
                ) is Some && orientation_of(b[pos3 + 1]) is Some {
                    Some(
                        (
                            g,
                            format_of(f).unwrap(),
                            path,
                            layout_of(b[pos3]).unwrap(),
                            orientation_of(b[pos3 + 1]).unwrap(),
                        ),
                    )
                } else {
                    None
                },
                None => None,
            },
            None => None,
        },
        None => None,
    }
}

/// What a ticket decodes to; `None` where it is malformed or has bytes left over.
pub open spec fn parse_ticket(b: Seq<u8>) -> Option<(Seq<char>, Seq<char>)> {
    match parse_str(b, 0) {
        Some((g, pos1)) => match parse_str(b, pos1) {
            Some((k, pos2)) => if pos2 == b.len() {
                Some((g, k))
            } else {
                None
            },
            None => None,
        },
        None => None,
    }
}

proof fn lemma_slice(b: Seq<u8>, p: Seq<u8>, x: Seq<u8>, q: Seq<u8>)
    requires
        b == p + x + q,
    ensures
        b.subrange(p.len() as int, (p.len() + x.len()) as int) == x,
{
    assert(b.subrange(p.len() as int, (p.len() + x.len()) as int) =~= x);
}

proof fn lemma_parse_algorithm(b: Seq<u8>, p: Seq<u8>, a: Algorithm, q: Seq<u8>)
    requires
        b == p + enc_algorithm(a) + q,
    ensures
        parse_algorithm(b, p.len() as int) == Some((a, (p.len() + enc_algorithm(a).len()) as int)),
{
    let x = enc_algorithm(a);
    let n = p.len() as int;
    lemma_slice(b, p, x, q);
    assert(b[n] == x[0]);
    match a {
        Algorithm::PageRank(c) => {
            let b0 = seq![0u8];
            let b1 = be8(c.max_iterations);
            let b2 = be8(c.tolerance_bits);
            let b3 = be8(c.damping_factor_bits as u64);
            assert(b =~= (p + b0) + b1 + (b2 + b3 + q));
            lemma_slice(b, p + b0, b1, b2 + b3 + q);
            lemma_parse_u64(b, n + 1, c.max_iterations);
            assert(b =~= (p + b0 + b1) + b2 + (b3 + q));
            lemma_slice(b, p + b0 + b1, b2, b3 + q);
            lemma_parse_u64(b, n + 9, c.tolerance_bits);
            assert(b =~= (p + b0 + b1 + b2) + b3 + q);
            lemma_slice(b, p + b0 + b1 + b2, b3, q);
            lemma_parse_u64(b, n + 17, c.damping_factor_bits as u64);
        },
        Algorithm::TriangleCount => {},
    }
}

/// Decoding the encoding of a compute request gives the request back.
pub proof fn lemma_compute_round_trip(c: (Seq<char>, Algorithm, Seq<char>))
    requires
        str_fits(c.0),
        str_fits(c.2),
    ensures
        parse_compute(enc_compute(c)) == Some(c),
{
    let b = enc_compute(c);
    let e1 = enc_str(c.0);
    let a = enc_algorithm(c.1);
    let e2 = enc_str(c.2);
    lemma_slice(b, Seq::empty(), e1, a + e2);
    assert(Seq::<u8>::empty() + e1 + (a + e2) =~= b);
    lemma_parse_str(b, 0, c.0);
    lemma_parse_algorithm(b, e1, c.1, e2);
    assert(b =~= (e1 + a) + e2 + Seq::empty());
    lemma_slice(b, e1 + a, e2, Seq::empty());
    lemma_parse_str(b, (e1 + a).len() as int, c.2);
}

/// Decoding the encoding of a graph command gives the command back.
pub proof fn lemma_command_round_trip(c: (Seq<char>, u64, CsrLayout, Orientation))
    requires
        str_fits(c.0),
    ensures
        parse_command(enc_command(c)) == Some(c),
{
    let b = enc_command(c);
    let e1 = enc_str(c.0);
    let n = be8(c.1);
    let t = seq![layout_byte(c.2), orientation_byte(c.3)];
    assert(b =~= Seq::<u8>::empty() + e1 + (n + t));
    lemma_slice(b, Seq::empty(), e1, n + t);
    lemma_parse_str(b, 0, c.0);
    assert(b =~= e1 + n + t);
    lemma_slice(b, e1, n, t);
    lemma_parse_u64(b, e1.len() as int, c.1);
    assert(b[e1.len() as int + 8] == layout_byte(c.2));
    assert(b[e1.len() as int + 9] == orientation_byte(c.3));
}

/// Decoding the encoding of a create request gives the request back.
pub proof fn lemma_create_round_trip(c: (Seq<char>, FileFormat, Seq<char>, CsrLayout, Orientation))
    requires
        str_fits(c.0),
        str_fits(c.2),
    ensures
        parse_create(enc_create(c)) == Some(c),
{
    let b = enc_create(c);
    let e1 = enc_str(c.0);
    let f = seq![format_byte(c.1)];
    let e2 = enc_str(c.2);
    let t = seq![layout_byte(c.3), orientation_byte(c.4)];
    assert(b =~= Seq::<u8>::empty() + e1 + (f + e2 + t));
    lemma_slice(b, Seq::empty(), e1, f + e2 + t);
    lemma_parse_str(b, 0, c.0);
    assert(b[e1.len() as int] == format_byte(c.1));
    assert(b =~= (e1 + f) + e2 + t);
    lemma_slice(b, e1 + f, e2, t);
    lemma_parse_str(b, e1.len() as int + 1, c.2);
    assert(b[e1.len() + 1 + e2.len() as int] == layout_byte(c.3));
    assert(b[e1.len() + 2 + e2.len() as int] == orientation_byte(c.4));
}

/// Decoding the encoding of a ticket gives the property identifier back.
pub proof fn lemma_ticket_round_trip(id: (Seq<char>, Seq<char>))
    requires
        str_fits(id.0),
        str_fits(id.1),
    ensures
        parse_ticket(enc_ticket(id)) == Some(id),
{
    let b = enc_ticket(id);
    let e1 = enc_str(id.0);
    let e2 = enc_str(id.1);
    assert(b =~= Seq::<u8>::empty() + e1 + e2);
    lemma_slice(b, Seq::empty(), e1, e2);
    lemma_parse_str(b, 0, id.0);
    assert(b =~= e1 + e2 + Seq::empty());
    lemma_slice(b, e1, e2, Seq::empty());
    lemma_parse_str(b, e1.len() as int, id.1);
}

fn push_layout(out: &mut Vec<u8>, l: CsrLayout)
    ensures
        final(out)@ == old(out)@.push(layout_byte(l)),
{
    out.push(
        match l {
            CsrLayout::Unsorted => 0u8,
            CsrLayout::Sorted => 1u8,
            CsrLayout::Deduplicated => 2u8,
        },
    );
}

fn push_orientation(out: &mut Vec<u8>, o: Orientation)
    ensures
        final(out)@ == old(out)@.push(orientation_byte(o)),
{
    out.push(
        match o {
            Orientation::Directed => 0u8,
            Orientation::Undirected => 1u8,
        },
    );
}

fn layout_from(b: u8) -> (r: Option<CsrLayout>)
    ensures
        r == layout_of(b),
{
    if b == 0 {
        Some(CsrLayout::Unsorted)
    } else if b == 1 {
        Some(CsrLayout::Sorted)
    } else if b == 2 {
        Some(CsrLayout::Deduplicated)
    } else {
        None
    }
}

fn orientation_from(b: u8) -> (r: Option<Orientation>)
    ensures
        r == orientation_of(b),
{
    if b == 0 {
        Some(Orientation::Directed)
    } else if b == 1 {
        Some(Orientation::Undirected)
    } else {
        None
    }
}

fn format_from(b: u8) -> (r: Option<FileFormat>)
    ensures
        r == format_of(b),
{
    if b == 0 {
        Some(FileFormat::EdgeList)
    } else if b == 1 {
        Some(FileFormat::Graph500)
    } else {
        None
    }
}

fn malformed() -> (r: ProtocolError)
    ensures
        r.kind == crate::error::ErrorKind::InvalidArgument,
{
    ProtocolError::invalid_argument("Malformed command payload")
}

impl ComputeConfig {
    /// The action body that carries this request.
    pub fn encode(&self) -> (r: Vec<u8>)
        ensures
            r@ == enc_compute(self@),
            str_fits(self.graph_name@) && str_fits(self.property_key@),
    {
        let mut out: Vec<u8> = Vec::new();
        push_str(&mut out, &self.graph_name);
        match self.algorithm {
            Algorithm::PageRank(c) => {
                out.push(0u8);
                push_u64(&mut out, c.max_iterations);
                push_u64(&mut out, c.tolerance_bits);
                push_u64(&mut out, c.damping_factor_bits as u64);
            },
            Algorithm::TriangleCount => {
                out.push(1u8);
            },
        }
        push_str(&mut out, &self.property_key);
        assert(out@ =~= enc_compute(self@));
        out
    }

    /// Reads a compute request from an action body.
    pub fn decode(b: &Vec<u8>) -> (r: Result<ComputeConfig, ProtocolError>)
        ensures
            match r {
                Ok(c) => parse_compute(b@) == Some(c@),
                Err(e) => parse_compute(b@) is None && e.kind
                    == crate::error::ErrorKind::InvalidArgument,
            },
    {
        let (graph_name, pos1) = match read_str(b, 0) {
            Some(x) => x,
            None => return Err(malformed()),
        };
        let (tag, pos2) = match read_byte(b, pos1) {
            Some(x) => x,
            None => return Err(malformed()),
        };
        let (algorithm, pos3) = if tag == 1 {
            (Algorithm::TriangleCount, pos2)
        } else if tag == 0 {
            let (it, q1) = match read_u64(b, pos2) {
                Some(x) => x,
                None => return Err(malformed()),
            };
            let (tol, q2) = match read_u64(b, q1) {
                Some(x) => x,
                None => return Err(malformed()),
            };
            let (d, q3) = match read_u64(b, q2) {
                Some(x) => x,
                None => return Err(malformed()),
            };
            if d > u32::MAX as u64 {
                return Err(malformed());
            }
            (
                Algorithm::PageRank(
                    PageRankConfig {
                        max_iterations: it,
                        tolerance_bits: tol,
                        damping_factor_bits: d as u32,
                    },
                ),
                q3,
            )
        } else {
            return Err(malformed());
        };
        let (property_key, pos4) = match read_str(b, pos3) {
            Some(x) => x,
            None => return Err(malformed()),
        };
        if pos4 != b.len() {
            return Err(malformed());
        }
        Ok(ComputeConfig { graph_name, algorithm, property_key })
    }
}

impl CreateGraphCommand {
    /// The descriptor payload that carries this command.
    pub fn encode(&self) -> (r: Vec<u8>)
        ensures
            r@ == enc_command(self@),
            str_fits(self.graph_name@),
    {
        let mut out: Vec<u8> = Vec::new();
        push_str(&mut out, &self.graph_name);
        push_u64(&mut out, self.edge_count);
        push_layout(&mut out, self.csr_layout);
        push_orientation(&mut out, self.orientation);
        assert(out@ =~= enc_command(self@));
        out
    }

    /// Reads a graph command from a descriptor payload.
    pub fn decode(b: &Vec<u8>) -> (r: Result<CreateGraphCommand, ProtocolError>)
        ensures
            match r {
                Ok(c) => parse_command(b@) == Some(c@),
                Err(e) => parse_command(b@) is None && e.kind
                    == crate::error::ErrorKind::InvalidArgument,
            },
    {
        let (graph_name, pos1) = match read_str(b, 0) {
            Some(x) => x,
            None => return Err(malformed()),
        };
        let (edge_count, pos2) = match read_u64(b, pos1) {
            Some(x) => x,
            None => return Err(malformed()),
        };
        if b.len() < 2 || pos2 != b.len() - 2 {
            return Err(malformed());
        }
        let csr_layout = match layout_from(b[pos2]) {
            Some(l) => l,
            None => return Err(malformed()),
        };
        let orientation = match orientation_from(b[pos2 + 1]) {
            Some(o) => o,
            None => return Err(malformed()),
        };
        Ok(CreateGraphCommand { graph_name, edge_count, csr_layout, orientation })
    }
}

impl CreateGraphFromFileConfig {
    /// The action body that carries this request.
    pub fn encode(&self) -> (r: Vec<u8>)
        ensures
            r@ == enc_create(self@),
            str_fits(self.graph_name@) && str_fits(self.path@),
    {
        let mut out: Vec<u8> = Vec::new();
        push_str(&mut out, &self.graph_name);
        out.push(
            match self.file_format {
                FileFormat::EdgeList => 0u8,
                FileFormat::Graph500 => 1u8,
            },
        );
        push_str(&mut out, &self.path);
        push_layout(&mut out, self.csr_layout);
        push_orientation(&mut out, self.orientation);
        assert(out@ =~= enc_create(self@));
        out
    }

    /// Reads a create request from an action body.
    pub fn decode(b: &Vec<u8>) -> (r: Result<CreateGraphFromFileConfig, ProtocolError>)
        ensures
            match r {
                Ok(c) => parse_create(b@) == Some(c@),
                Err(e) => parse_create(b@) is None && e.kind
                    == crate::error::ErrorKind::InvalidArgument,
            },
    {
        let (graph_name, pos1) = match read_str(b, 0) {
            Some(x) => x,
            None => return Err(malformed()),
        };
        let (f, pos2) = match read_byte(b, pos1) {
            Some(x) => x,
            None => return Err(malformed()),
        };
        let (path, pos3) = match read_str(b, pos2) {
            Some(x) => x,
            None => return Err(malformed()),
        };
        if b.len() < 2 || pos3 != b.len() - 2 {
            return Err(malformed());
        }
        let file_format = match format_from(f) {
            Some(x) => x,
            None => return Err(malformed()),
        };
        let csr_layout = match layout_from(b[pos3]) {
            Some(l) => l,
            None => return Err(malformed()),
        };
        let orientation = match orientation_from(b[pos3 + 1]) {
            Some(o) => o,
            None => return Err(malformed()),
        };
        Ok(CreateGraphFromFileConfig { graph_name, file_format, path, csr_layout, orientation })
    }
}

impl PropertyId {
    /// The ticket that names this property.
    pub fn to_ticket(&self) -> (r: Vec<u8>)
        ensures
            r@ == enc_ticket(self@),
            str_fits(self.graph_name@) && str_fits(self.property_key@),
    {
        let mut out: Vec<u8> = Vec::new();
        push_str(&mut out, &self.graph_name);
        push_str(&mut out, &self.property_key);
        assert(out@ =~= enc_ticket(self@));
        out
    }

    /// Reads a property identifier from a ticket.
    pub fn from_ticket(b: &Vec<u8>) -> (r: Result<PropertyId, ProtocolError>)
        ensures
            match r {
                Ok(id) => parse_ticket(b@) == Some(id@),
                Err(e) => parse_ticket(b@) is None && e.kind
                    == crate::error::ErrorKind::InvalidArgument,
            },
    {
        let (graph_name, pos1) = match read_str(b, 0) {
            Some(x) => x,
            None => return Err(malformed()),
        };
        let (property_key, pos2) = match read_str(b, pos1) {
            Some(x) => x,
            None => return Err(malformed()),
        };
        if pos2 != b.len() {
            return Err(malformed());
        }
        Ok(PropertyId::new(graph_name, property_key))
    }
}

} // verus!
