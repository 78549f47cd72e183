//! Packet capture analysis engine: filter expressions (lexing, parsing and
//! evaluation), Ethernet/IPv4/TCP/UDP/ICMP header decoding, bidirectional
//! flow tracking and the text renderings that the command line tool prints.
pub mod text;
pub mod addr;
pub mod filter;
pub mod lexer;
pub mod parser;
pub mod casing;
pub mod packet;
pub mod flow;
pub mod render;
pub mod units;
pub mod report;
pub mod cli;
pub mod capture;
