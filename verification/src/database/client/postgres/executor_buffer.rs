//! The buffers of an executor.

use crate::database::client::postgres::statements::Statements;
use crate::error::Error;
use crate::misc::partitioned_filled_buffer::{PartitionedFilledBuffer, PartitionedView};
use core::ops::Range;
use vstd::prelude::*;

verus! {

/// Everything that an executor keeps between its calls, so that it can be set up once and
/// handed from connection to connection.
#[derive(Debug)]
pub struct ExecutorBuffer {
    /// What arrived from the network.
    pub nb: PartitionedFilledBuffer,
    /// Where each row that arrived ends among the values.
    pub rb: Vec<usize>,
    /// Where each value that arrived lies among the bytes.
    pub vb: Vec<(bool, Range<usize>)>,
    /// The statements that the backend holds prepared.
    pub stmts: Statements,
    /// What is about to be sent.
    pub params_buffer: Vec<u8>,
}

impl ExecutorBuffer {
    /// The network buffer and the cache of statements are in order.
    pub open spec fn inv(&self) -> bool {
        self.nb.inv() && self.stmts.inv()
    }

    /// Empty buffers and a cache for at most `max_stmts` statements.
    pub fn new(max_stmts: usize) -> (r: Self)
        ensures
            r.inv(),
            r.stmts@.len() == 0,
            r.rb@.len() == 0,
            r.vb@.len() == 0,
            r.params_buffer@.len() == 0,
    {
        Self {
            nb: PartitionedFilledBuffer::new(),
            rb: Vec::new(),
            vb: Vec::new(),
            stmts: Statements::new(max_stmts),
            params_buffer: Vec::new(),
        }
    }

    /// Buffers with room for `network_buffer_cap` bytes from the network and a cache for at
    /// most `max_stmts` statements.
    pub fn with_capacity(network_buffer_cap: usize, max_stmts: usize) -> (r: Result<Self, Error>)
        ensures
            match r {
                Ok(this) => this.inv() && this.stmts@.len() == 0 && this.rb@.len() == 0
                    && this.vb@.len() == 0,
                Err(e) => e == Error::AllocationError,
            },
            network_buffer_cap == 0 ==> r is Ok,
    {
        match PartitionedFilledBuffer::with_capacity(network_buffer_cap) {
            Ok(nb) => Ok(
                Self {
                    nb,
                    rb: Vec::new(),
                    vb: Vec::new(),
                    stmts: Statements::new(max_stmts),
                    params_buffer: Vec::new(),
                },
            ),
            Err(e) => Err(e),
        }
    }

    /// Forgets everything, the prepared statements too.
    pub fn clear(&mut self)
        requires
            old(self).stmts.inv(),
        ensures
            final(self).inv(),
            final(self).stmts@.len() == 0,
            final(self).stmts.spec_capacity() == old(self).stmts.spec_capacity(),
            final(self).rb@.len() == 0,
            final(self).vb@.len() == 0,
            final(self).params_buffer@.len() == 0,
            final(self).nb@.following_end == 0,
    {
        self.nb.clear();
        self.rb.clear();
        self.vb.clear();
        self.stmts.clear();
        self.params_buffer.clear();
    }

    /// Forgets the rows of the command before. The bytes from the network are only given up
    /// if none of them waits to be looked at.
    pub fn clear_cmd_buffers(
        nb: &mut PartitionedFilledBuffer,
        rb: &mut Vec<usize>,
        vb: &mut Vec<(bool, Range<usize>)>,
    )
        requires
            old(nb).inv(),
        ensures
            final(nb).inv(),
            final(rb)@.len() == 0,
            final(vb)@.len() == 0,
            final(nb)@ == if old(nb)@.following_end > old(nb)@.current_end {
                old(nb)@
            } else {
                PartitionedView {
                    antecedent_end: 0,
                    current_end: 0,
                    following_end: 0,
                    len: 0,
                    all: old(nb)@.all,
                }
            },
    {
        nb.clear_if_following_is_empty();
        rb.clear();
        vb.clear();
    }
}

} // verus!
