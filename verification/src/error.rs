//! Error kinds reported by graph operations and by the text codec.

use vstd::prelude::*;

verus! {

/// Failure to read one vertex line.
#[derive(Clone, Copy, Debug, PartialEq, Eq, Structural)]
pub enum VertexParseError {
    /// The line has no whitespace separating id from value.
    VertexParsingError,
    /// The id token is not a decimal number that fits the id type.
    VertexIndexParsingError,
    /// The value token cannot be converted into the payload type.
    VertexValueParsingError,
}

/// Failure to read one edge line.
#[derive(Clone, Copy, Debug, PartialEq, Eq, Structural)]
pub enum EdgeParseError {
    /// The line does not consist of three whitespace-separated parts.
    EdgeParsingError,
    /// The start token is not a decimal number that fits the id type.
    EdgeStartParsingError,
    /// The end token is not a decimal number that fits the id type.
    EdgeEndParsingError,
    /// An endpoint id names no vertex read so far.
    VertexForEdgeIndexNotFound,
    /// The value token cannot be converted into the payload type.
    EdgeValueParsingError,
}

/// Failure to read a whole graph text.
#[derive(Clone, Copy, Debug, PartialEq, Eq, Structural)]
pub enum GraphParseError {
    /// A vertex line has no separator, or repeats an id already read.
    VertexParsingError,
    /// A vertex id token is not a number.
    VertexIndexParsingError,
    /// A vertex value cannot be converted into the payload type.
    VertexValueParsingError,
    /// An edge line is malformed, or repeats an ordered pair already read.
    EdgeParsingError,
    /// An edge start token is not a number.
    EdgeStartParsingError,
    /// An edge end token is not a number.
    EdgeEndParsingError,
    /// An edge endpoint names no vertex read so far.
    VertexForEdgeIndexNotFound,
}

/// Failure of a graph operation.
#[derive(Clone, Copy, Debug, PartialEq, Eq, Structural)]
pub enum GraphError {
    /// The graph has no vertex with the id that was asked for.
    VertexNotFound,
    /// The graph has no edge for the ordered pair that was asked for.
    EdgeNotFound,
    /// The edge to remove has an endpoint that is not set or names no
    /// vertex of the graph.
    EdgeRemovingError,
    /// A vertex could not be removed.
    VertexRemovingError,
    /// The graph already has an edge for the ordered pair.
    EdgeExistsError,
    /// The graph already has a vertex with the id.
    VertexExistsError,
}

/// Failure to write a graph as text.
#[derive(Clone, Copy, Debug, PartialEq, Eq, Structural)]
pub enum SerializationError {
    /// An edge has an endpoint that is not set.
    EdgeVertexNotFound,
}

impl VertexParseError {
    /// What went wrong, in words.
    pub open spec fn message(self) -> Seq<char> {
        match self {
            VertexParseError::VertexParsingError => "Failed to parse vertex"@,
            VertexParseError::VertexIndexParsingError => "Failed to parse vertex index"@,
            VertexParseError::VertexValueParsingError => "Failed to parse vertex value"@,
        }
    }

    /// The message as a string.
    pub fn to_string(&self) -> (r: String)
        ensures
            r@ == self.message(),
    {
        match self {
            VertexParseError::VertexParsingError => "Failed to parse vertex".to_owned(),
            VertexParseError::VertexIndexParsingError => "Failed to parse vertex index".to_owned(),
            VertexParseError::VertexValueParsingError => "Failed to parse vertex value".to_owned(),
        }
    }
}

impl EdgeParseError {
    /// What went wrong, in words.
    pub open spec fn message(self) -> Seq<char> {
        match self {
            EdgeParseError::EdgeParsingError => "Failed to parse vertex"@,
            EdgeParseError::EdgeStartParsingError => "Failed to parse edge start"@,
            EdgeParseError::EdgeEndParsingError => "Failed to parse edge end"@,
            EdgeParseError::VertexForEdgeIndexNotFound => "Vertex not found"@,
            EdgeParseError::EdgeValueParsingError => "Failed to parse edge value"@,
        }
    }

    /// The message as a string.
    pub fn to_string(&self) -> (r: String)
        ensures
            r@ == self.message(),
    {
        match self {
            EdgeParseError::EdgeParsingError => "Failed to parse vertex".to_owned(),
            EdgeParseError::EdgeStartParsingError => "Failed to parse edge start".to_owned(),
            EdgeParseError::EdgeEndParsingError => "Failed to parse edge end".to_owned(),
            EdgeParseError::VertexForEdgeIndexNotFound => "Vertex not found".to_owned(),
            EdgeParseError::EdgeValueParsingError => "Failed to parse edge value".to_owned(),
        }
    }
}

impl GraphParseError {
    /// What went wrong, in words.
    pub open spec fn message(self) -> Seq<char> {
        match self {
            GraphParseError::VertexParsingError => "Failed to parse index"@,
            GraphParseError::VertexIndexParsingError => "Failed to parse vertex index"@,
            GraphParseError::VertexValueParsingError => "Failed to parse vertex value"@,
            GraphParseError::EdgeParsingError => "Failed to parse value"@,
            GraphParseError::EdgeStartParsingError => "Failed to parse edge start"@,
            GraphParseError::EdgeEndParsingError => "Failed to parse edge end"@,
            GraphParseError::VertexForEdgeIndexNotFound => "Vertex not found"@,
        }
    }

    /// The message as a string.
    pub fn to_string(&self) -> (r: String)
        ensures
            r@ == self.message(),
    {
        match self {
            GraphParseError::VertexParsingError => "Failed to parse index".to_owned(),
            GraphParseError::VertexIndexParsingError => "Failed to parse vertex index".to_owned(),
            GraphParseError::VertexValueParsingError => "Failed to parse vertex value".to_owned(),
            GraphParseError::EdgeParsingError => "Failed to parse value".to_owned(),
            GraphParseError::EdgeStartParsingError => "Failed to parse edge start".to_owned(),
            GraphParseError::EdgeEndParsingError => "Failed to parse edge end".to_owned(),
            GraphParseError::VertexForEdgeIndexNotFound => "Vertex not found".to_owned(),
        }
    }
}

impl GraphError {
    /// What went wrong, in words.
    pub open spec fn message(self) -> Seq<char> {
        match self {
            GraphError::VertexNotFound => "Vertex is not found"@,
            GraphError::EdgeNotFound => "Edge is not found"@,
            GraphError::EdgeRemovingError => "Removing edge failed"@,
            GraphError::VertexRemovingError => "Removing vertex failed"@,
            GraphError::EdgeExistsError => "Edge already exists"@,
            GraphError::VertexExistsError => "Vertex already exists"@,
        }
    }

    /// The message as a string.
    pub fn to_string(&self) -> (r: String)
        ensures
            r@ == self.message(),
    {
        match self {
            GraphError::VertexNotFound => "Vertex is not found".to_owned(),
            GraphError::EdgeNotFound => "Edge is not found".to_owned(),
            GraphError::EdgeRemovingError => "Removing edge failed".to_owned(),
            GraphError::VertexRemovingError => "Removing vertex failed".to_owned(),
            GraphError::EdgeExistsError => "Edge already exists".to_owned(),
            GraphError::VertexExistsError => "Vertex already exists".to_owned(),
        }
    }
}

impl SerializationError {
    /// What went wrong, in words.
    pub open spec fn message(self) -> Seq<char> {
        match self {
            SerializationError::EdgeVertexNotFound => "Edge has no one of the vertexes"@,
        }
    }

    /// The message as a string.
    pub fn to_string(&self) -> (r: String)
        ensures
            r@ == self.message(),
    {
        match self {
            SerializationError::EdgeVertexNotFound => "Edge has no one of the vertexes".to_owned(),
        }
    }
}

} // verus!
