use ppgg::instruction::Instruction;
use ppgg::mutation::Mutation;

#[test]
fn test_interpretion_of_missense_mut() {
        let test_case=vec!["missense".to_string(),"ENST00000484547".to_string(), "32Q>32R".to_string()];
        let test_mutation=Mutation::new(test_case).unwrap();
        let ins=Instruction::interpret_missense(&test_mutation, &vec![test_mutation.clone()]); 
        assert_eq!(ins.get_code(),'M'); 
        assert_eq!(ins.get_s_state(),false); 
        assert_eq!(ins.get_position_ref(),31); 
        assert_eq!(ins.get_length(),1); 
        assert_eq!(ins.get_data().len(),1); 
        assert_eq!(ins.get_data()[0],'R'); 
    }

#[test]
fn test_interpretion_of_missense_mut2() {
        let test_case=vec!["*missense".to_string(),"ENST00000484547".to_string(), "32Q>32R".to_string()];
        let test_mutation=Mutation::new(test_case).unwrap();
        let ins=Instruction::interpret_s_missense(&test_mutation, &vec![test_mutation.clone()]); 
        assert_eq!(ins.get_code(),'N'); 
        assert_eq!(ins.get_s_state(),true); 
        assert_eq!(ins.get_position_ref(),31); 
        assert_eq!(ins.get_length(),1); 
        assert_eq!(ins.get_data().len(),1); 
        assert_eq!(ins.get_data()[0],'R'); 
    }

#[test]
fn test_interpretion_of_inframe_insertion_mut1() {
        // 125Y>125YRR   
        let test_case=vec!["inframe_insertion".to_string(),"ENST00000484547".to_string(), "125Y>125YRR".to_string()];
        let test_mutation=Mutation::new(test_case).unwrap();
        println!("{:#?}",&test_mutation);
        let ins=Instruction::interpret_inframe_insertion(&test_mutation, &vec![test_mutation.clone()]); 
        assert_eq!(ins.get_code(),'I'); 
        assert_eq!(ins.get_s_state(),false); 
        assert_eq!(ins.get_position_ref(),124); 
        assert_eq!(ins.get_length(),3); 
        assert_eq!(ins.get_data().len(),3); 
        assert_eq!(ins.get_data()[0],'Y'); 
        assert_eq!(ins.get_data()[1],'R'); 
        assert_eq!(ins.get_data()[2],'R'); 
    }

#[test]
fn test_interpretion_of_s_inframe_insertion_mut2() {
        // 125Y>125YRR   
        let test_case=vec!["*inframe_insertion".to_string(),"ENST00000484547".to_string(), "125Y>125YRR".to_string()];
        let test_mutation=Mutation::new(test_case).unwrap();
        println!("{:#?}",&test_mutation);
        let ins=Instruction::interpret_s_inframe_insertion(&test_mutation, &vec![test_mutation.clone()]); 
        assert_eq!(ins.get_code(),'J'); 
        assert_eq!(ins.get_s_state(),true); 
        assert_eq!(ins.get_position_ref(),124); 
        assert_eq!(ins.get_length(),3); 
        assert_eq!(ins.get_data().len(),3); 
        assert_eq!(ins.get_data()[0],'Y'); 
        assert_eq!(ins.get_data()[1],'R'); 
        assert_eq!(ins.get_data()[2],'R'); 
    }

#[test]
fn test_interpretion_of_inframe_deletion() {
        let test_case=vec!["inframe_deletion".to_string(),"ENST00000506382".to_string(), "115SL>115S".to_string()];
        let test_mutation=Mutation::new(test_case).unwrap();
        println!("{:#?}",&test_mutation);  
        let ins=Instruction::interpret_inframe_deletion(&test_mutation, &vec![test_mutation.clone()]); 
        println!("{:#?}",&ins);  
        assert_eq!(ins.get_code(),'D'); 
        assert_eq!(ins.get_s_state(),false); 
        assert_eq!(ins.get_position_ref(),114); 
        assert_eq!(ins.get_length(),1); 
        assert_eq!(ins.get_data().len(),1); 
    }

#[test]
fn test_interpretion_of_s_inframe_deletion() {
        let test_case=vec!["*inframe_deletion".to_string(),"ENST00000506382".to_string(), "115SL>115S".to_string()];
        let test_mutation=Mutation::new(test_case).unwrap();
        println!("{:#?}",&test_mutation);  
        let ins=Instruction::interpret_s_inframe_deletion(&test_mutation, &vec![test_mutation.clone()]);
        println!("{:#?}",&ins); 
        assert_eq!(ins.get_code(),'C'); 
        assert_eq!(ins.get_s_state(),true); 
        assert_eq!(ins.get_position_ref(),114); 
        assert_eq!(ins.get_length(),1); 
        assert_eq!(ins.get_data().len(),1); 
    }

#[test]
fn test_interpretion_of_frameshift() {
        let test_case=vec!["frameshift".to_string(),"ENST00000510017".to_string(), "40VGLHFWTM*>40VDSTFGQC".to_string()];
        let test_mutation=Mutation::new(test_case).unwrap();
        println!("{:#?}",&test_mutation);  
        let ins=Instruction::interpret_frameshift(&test_mutation, &vec![test_mutation.clone()]); 
        println!("{:#?}",&ins); 
        assert_eq!(ins.get_code(),'F'); 
        assert_eq!(ins.get_s_state(),false); 
        assert_eq!(ins.get_position_ref(),39); 
        assert_eq!(ins.get_length(),8); 
        assert_eq!(*ins.get_data(),['V','D','S','T','F','G','Q','C']); 
    }

#[test]
fn test_interpretion_of_s_frameshift() {
        let test_case=vec!["*frameshift".to_string(),"ENST00000510017".to_string(), "40VGLHFWTM*>40VDSTFGQC".to_string()];
        let test_mutation=Mutation::new(test_case).unwrap();
        println!("{:#?}",&test_mutation);  
        let ins=Instruction::interpret_s_frameshift(&test_mutation, &vec![test_mutation.clone()]); 
        println!("{:#?}",&ins); 
        assert_eq!(ins.get_code(),'R'); 
        assert_eq!(ins.get_s_state(),true); 
        assert_eq!(ins.get_position_ref(),39); 
        assert_eq!(ins.get_length(),8); 
        assert_eq!(*ins.get_data(),['V','D','S','T','F','G','Q','C']); 
    }

#[test]
fn test_interpretion_of_stop_gained() {
        let test_case=vec!["stop_gained".to_string(),"ENST00000313766".to_string(), "217E>217*".to_string()];
        let test_mutation=Mutation::new(test_case).unwrap();
        println!("{:#?}",&test_mutation);  
        let ins=Instruction::interpret_stop_gained(&test_mutation, &vec![test_mutation.clone()]); 
        println!("{:#?}",&ins); 
        assert_eq!(ins.get_code(),'G'); 
        assert_eq!(ins.get_s_state(),false); 
        assert_eq!(ins.get_position_ref(),216); 
        assert_eq!(ins.get_length(),0); 
        assert_eq!(ins.get_data().len(),0); 
    }

#[test]
fn test_interpretion_of_stop_lost() {
        let test_case=vec!["stop_lost".to_string(),"ENST00000650310".to_string(), "489*>489S".to_string()];
        let test_mutation=Mutation::new(test_case).unwrap();
        println!("{:#?}",&test_mutation);  
        let ins=Instruction::interpret_stop_lost(&test_mutation, &vec![test_mutation.clone()]); 
        println!("{:#?}",&ins); 
        assert_eq!(ins.get_code(),'L'); 
        assert_eq!(ins.get_s_state(),false); 
        assert_eq!(ins.get_position_ref(),488); 
        assert_eq!(ins.get_length(),1);
        assert_eq!(ins.get_data().len(),1);
        assert_eq!(*ins.get_data(),['S']);
    }

#[test]
fn test_interpretion_of_start_lost() {
        let test_case=vec!["start_lost".to_string(),"ENST00000275358".to_string(), "1M>1K".to_string()];
        let test_mutation=Mutation::new(test_case).unwrap();
        println!("{:#?}",&test_mutation);  
        let ins=Instruction::interpret_start_lost(&test_mutation, &vec![test_mutation.clone()]); 
        println!("{:#?}",&ins); 
        assert_eq!(ins.get_code(),'0'); 
        assert_eq!(ins.get_s_state(),false); 
        assert_eq!(ins.get_position_ref(),0); 
        assert_eq!(ins.get_length(),0);
        assert_eq!(ins.get_data().len(),0);
    }

#[test]
fn test_interpretion_of_s_stop_gained() {
        let test_case=vec!["*stop_gained".to_string(),"ENST00000313766".to_string(), "217E>217*".to_string()];
        let test_mutation=Mutation::new(test_case).unwrap();
        println!("{:#?}",&test_mutation);  
        let ins=Instruction::interpret_s_stop_gained(&test_mutation, &vec![test_mutation.clone()]); 
        println!("{:#?}",&ins); 
        assert_eq!(ins.get_code(),'X'); 
        assert_eq!(ins.get_s_state(),true); 
        assert_eq!(ins.get_position_ref(),216); 
        assert_eq!(ins.get_length(),0); 
        assert_eq!(ins.get_data().len(),0); 
    }

#[test]
fn test_interpret_s_missense_and_inframe_altering() {
        let test_case=vec!["*missense&inframe_altering".to_string(),"ENST00000326303".to_string(), "188LAY>188LQS".to_string()];
        let test_mutation=Mutation::new(test_case).unwrap();
        println!("{:#?}",&test_mutation);  
        let ins=Instruction::interpret_s_missense_and_inframe_altering(&test_mutation, &vec![test_mutation.clone()]); 
        println!("{:#?}",&ins); 
        assert_eq!(ins.get_code(),'K'); 
        assert_eq!(ins.get_s_state(),true); 
        assert_eq!(ins.get_position_ref(),187); 
        assert_eq!(ins.get_length(),3); 
        assert_eq!(ins.get_data().len(),3); 
        assert_eq!(*ins.get_data(),['L','Q','S']); 
    }

#[test]
fn test_interpret_s_frameshift_and_stop_retained() {
        let test_case=vec!["*frameshift&stop_retained".to_string(),"ENST00000438700".to_string(), "308GSLGMGQLLLRAKAMRLLYYLKTEDPEYDVQSKQWLTHLLDQFTNIKNILALKKIEVVHFTSLSRQLEFEATSVTVIPVFHLAYILIILFAVTSCFRFDCIRNKMCVAAFGVISAFLAVVSGFGLLLHIGVPFVIIVANSPFLILGVGVDDMFIMISAWHKTNLADDIRERMSNVYSKAAVSITITTITNILALYTGIMSSFRSVQCFCIYTGMTLLFCYFYNITCFGAFMALDGKREVVCLCWLKKADPKWPSFKKFCCFPFGSVPDEHGTDIHPISLFFRDYFGPFLTRSESKYFVVFIYVLYIISSIYGCFHVQEGLDLRNLASDDSYITPYFNVEENYFSDYGPRVMVIVTKKVDYWDKDVRQKLENCTKIFEKNVYVDKNLTEFWLDAYVQYLKGNSQDPNEKNTFMNNIPDFLSNFPNFQHDINISSSNEIISSRGFIQTTDVSSSAKKKILLF*>308GQPRNGPVTPAGQSHAAAVLPEDRGP*".to_string()];
        let test_mutation=Mutation::new(test_case).unwrap();
        println!("{:#?}",&test_mutation);  
        let ins=Instruction::interpret_s_frameshift_and_stop_retained(&test_mutation, &vec![test_mutation.clone()]); 
        println!("{:#?}",&ins); 
        assert_eq!(ins.get_code(),'Q'); 
        assert_eq!(ins.get_s_state(),true); 
        assert_eq!(ins.get_position_ref(),307); 
        assert_eq!(*ins.get_data(),[
            'G','Q','P','R','N','G','P','V','T',
            'P','A','G','Q','S','H','A','A','A','V','L','P','E','D','R','G','P',]); 
    }

#[test]
fn test_interpret_s_stop_gained_and_inframe_altering() {
        let test_case=vec!["*stop_gained&inframe_altering".to_string(),"ENST00000275358".to_string(), "1273KEEDDKNAQGRKRHVKPTSGNAFTICKYPCGKSRECVAPNICKCKPGYIGSNCQTALCDPDCKNHGKCIKPNICQCLPGHGGATCDEEHCNPPCQHGGTCLAGNLCTCPYGFVGPRCETMVCNRHCENGGQCLTPDICQC>1273".to_string()];
        let test_mutation=Mutation::new(test_case).unwrap();
        println!("{:#?}",&test_mutation);  
        let ins=Instruction::interpret_s_stop_gained_and_inframe_altering(&test_mutation, &vec![test_mutation.clone()]); 
        println!("{:#?}",&ins); 
        assert_eq!(ins.get_code(),'A'); 
        assert_eq!(ins.get_s_state(),true); 
        assert_eq!(ins.get_position_ref(),1272); 

    }

#[test]
fn test_interpret_frameshift_and_stop_retained() {
        let test_case=vec!["frameshift&stop_retained".to_string(),"ENST00000381329".to_string(), "65IEREFENLYIENLELRREIDTLNERLAAEGQAIDGAELSKGQLKTKASHSTSQLSQKLKTTYKASTSKIVSSFKTTTSRAACQLVKEYIGHRDGIWDVSVAKTQPVVLGTASADHTALLWSIETGKCLVKYAGHVGSVNSIKFHPSEQLALTASGDQTAHIWRYAVQLPTPQPVADTSVSTFPYL*>65IENLKTFISKT*".to_string()];
        let test_mutation=Mutation::new(test_case).unwrap();
        println!("{:#?}",&test_mutation);  
        let ins=Instruction::interpret_frameshift_and_stop_retained(&test_mutation, &vec![test_mutation.clone()]); 
        println!("{:#?}",&ins); 
        assert_eq!(ins.get_code(),'B'); 
        assert_eq!(ins.get_s_state(),false); 
        assert_eq!(ins.get_position_ref(),64); 
        assert_eq!(*ins.get_data(),['I','E','N','L','K','T','F','I','S','K','T']);
    }

#[test]
fn test_inframe_deletion_and_stop_retained() {
        let test_case=vec!["frameshift&stop_retained".to_string(),"ENST00000381329".to_string(), "733S*>733*".to_string()];
        let test_mutation=Mutation::new(test_case).unwrap();
        println!("{:#?}",&test_mutation);  
        let ins=Instruction::interpret_inframe_deletion_and_stop_retained(&test_mutation, &vec![test_mutation.clone()]); 
        println!("{:#?}",&ins); 
        assert_eq!(ins.get_code(),'P'); 
        assert_eq!(ins.get_s_state(),false); 
        assert_eq!(ins.get_length(),0);
        assert_eq!(ins.get_position_ref(),732); 
    }

#[test]
fn test_interpret_inframe_insertion_and_stop_retained() {
        let test_case=vec!["inframe_insertion&stop_retained".to_string(),"ENST00000551483".to_string(), "192*>192*".to_string()];
        let test_mutation=Mutation::new(test_case).unwrap();
        println!("{:#?}",&test_mutation);  
        let ins=Instruction::interpret_inframe_insertion_and_stop_retained(&test_mutation, &vec![test_mutation.clone()]); 
        println!("{:#?}",&ins); 
        assert_eq!(ins.get_code(),'Z'); 
        assert_eq!(ins.get_s_state(),false); 
        assert_eq!(ins.get_length(),0);
        assert_eq!(ins.get_position_ref(),191); 
    }

#[test]
fn test_stop_gained_inframe_altering() {
        let test_case=vec!["stop_gained&inframe_altering".to_string(),"ENST00000328942".to_string(), "22LESVQCWIGIPFCAIYLIAMIGNSLLLSIIKSERSLHEPLYIFLGMLGATDIALASSIMPKMLGIFWFNVPEIYFDSCLLQMWFIHTLQGIESGILVAMALDRYVAICYPLRHANIFTHQLVIQIGTMVVLRAAILVAPCLVLIKCRFQFYHTTVISHSYCEHMAIVKLAAANVQVNKIYGLFVAFTVAGFDLTFITLSYIQIFITVFRLPQKEARFKAFNTCIAHICVFLQFYLLAFFSFFTHRFGS>22*".to_string()];
        let test_mutation=Mutation::new(test_case).unwrap();
        println!("{:#?}",&test_mutation);  
        let ins=Instruction::interpret_stop_gained_and_inframe_altering(&test_mutation, &vec![test_mutation.clone()]); 
        println!("{:#?}",&ins); 
        assert_eq!(ins.get_code(),'T'); 
        assert_eq!(ins.get_s_state(),false); 
        assert_eq!(ins.get_position_ref(),21); 
    }

#[test]
fn test_stop_lost_and_frameshift() {
        let test_case=vec!["stop_lost&frameshift".to_string(),"ENST00000398786".to_string(), "134*>134N".to_string()];
        let test_mutation=Mutation::new(test_case).unwrap();
        println!("{:#?}",&test_mutation);  
        let ins=Instruction::interpret_stop_lost_and_frameshift(&test_mutation, &vec![test_mutation.clone()]); 
        println!("{:#?}",&ins); 
        assert_eq!(ins.get_code(),'W'); 
        assert_eq!(ins.get_s_state(),false); 
        assert_eq!(ins.get_position_ref(),133); 
        assert_eq!(*ins.get_data(),['N']);  
    }

#[test]
fn test_interpret_start_lost_and_splice_region() {
        let test_case=vec!["start_lost&splice_region".to_string(),"ENST00000375110".to_string(), "1M>1I".to_string()];
        let test_mutation=Mutation::new(test_case).unwrap();
        println!("{:#?}",&test_mutation);  
        let ins=Instruction::interpret_start_lost_and_splice_region(&test_mutation, &vec![test_mutation.clone()]); 
        println!("{:#?}",&ins); 
        assert_eq!(ins.get_code(),'U'); 
        assert_eq!(ins.get_s_state(),false); 
        assert_eq!(ins.get_position_ref(),0); 
    }

