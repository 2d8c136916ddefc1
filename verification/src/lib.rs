//! Guest integrity for confidential containers.
//!
//! Executable code in a guest comes only from dm-verity devices that the guest
//! trusts: the boot disks that the kernel command line names, and image layers
//! whose root hashes the guest has signed itself.
//!
//! * [`root_hash`] and [`policy`]: the root hashes on the kernel command line,
//!   and the execution policy that lists them.
//! * [`activation`]: the policy is signed, deployed, activated, enforced and
//!   sealed.
//! * [`keyring`] and [`layer_signer`]: the key that signs image layers, from its
//!   provisioning to its destruction.
//! * [`volume`] and [`device`]: confidential volumes, from a pod's annotation to
//!   the device that its container gets.
//! * [`crypto`]: what is taken from OpenSSL.
//! * [`text`]: taking text apart and putting it together.
//!
//! What has to be done outside (files, system calls, services) is never done
//! here: a state and an event give the next state and the next action, and the
//! caller carries the action out.

pub mod activation;
pub mod crypto;
pub mod device;
pub mod keyring;
pub mod layer_signer;
pub mod policy;
pub mod root_hash;
pub mod text;
pub mod volume;
