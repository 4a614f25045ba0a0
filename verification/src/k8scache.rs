//! Kubernetes pod metadata attached to completed trace records.
//!
//! The lookup itself belongs to an external collaborator; this cache is
//! its placeholder and answers every query with empty metadata, exactly
//! as the agent does when no cluster information has been wired in.

use vstd::prelude::*;

verus! {

pub struct K8sPodInfo {
    pub container_name: String,
    pub pod_ip: String,
    pub pod_name: String,
    pub workload_kind: String,
    pub workload_name: String,
    pub namespace: String,
}

#[verifier::ext_equal]
pub ghost struct K8sPodInfoView {
    pub container_name: Seq<char>,
    pub pod_ip: Seq<char>,
    pub pod_name: Seq<char>,
    pub workload_kind: Seq<char>,
    pub workload_name: Seq<char>,
    pub namespace: Seq<char>,
}

impl View for K8sPodInfo {
    type V = K8sPodInfoView;

    open spec fn view(&self) -> K8sPodInfoView {
        K8sPodInfoView {
            container_name: self.container_name@,
            pod_ip: self.pod_ip@,
            pod_name: self.pod_name@,
            workload_kind: self.workload_kind@,
            workload_name: self.workload_name@,
            namespace: self.namespace@,
        }
    }
}

impl Clone for K8sPodInfo {
    fn clone(&self) -> (res: Self)
        ensures
            res@ == self@,
    {
        K8sPodInfo {
            container_name: self.container_name.clone(),
            pod_ip: self.pod_ip.clone(),
            pod_name: self.pod_name.clone(),
            workload_kind: self.workload_kind.clone(),
            workload_name: self.workload_name.clone(),
            namespace: self.namespace.clone(),
        }
    }
}

/// Every field empty: the answer for an unknown container.
pub open spec fn pod_info_empty(p: K8sPodInfoView) -> bool {
    &&& p.container_name.len() == 0
    &&& p.pod_ip.len() == 0
    &&& p.pod_name.len() == 0
    &&& p.workload_kind.len() == 0
    &&& p.workload_name.len() == 0
    &&& p.namespace.len() == 0
}

pub struct K8sMetaDataCache {}

impl K8sMetaDataCache {
    pub fn new() -> (r: K8sMetaDataCache)
    {
        K8sMetaDataCache {}
    }

    /// No cluster metadata is wired in: every lookup answers empty
    /// fields, whatever the node and container queried.
    pub fn get_k8s_pod_info(&self, node_ip: &str, container_id: &str) -> (r: K8sPodInfo)
        ensures
            pod_info_empty(r@),
    {
        K8sPodInfo {
            container_name: String::new(),
            pod_ip: String::new(),
            pod_name: String::new(),
            workload_kind: String::new(),
            workload_name: String::new(),
            namespace: String::new(),
        }
    }
}

} // verus!
