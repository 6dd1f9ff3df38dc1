use ppgg::task::Task;
use ppgg::genome::SequenceTape;

#[test]
fn test_execute() {
        let mut test_stream_ref="ABCFEFGH"
                            .chars()
                            .collect::<Vec<char>>(); 
        let mut test_stream_alt=test_stream_ref.iter()
                                .rev()
                                .map(|c|c.clone())
                                .collect::<Vec<char>>(); 
        let mut test_results=vec!['x';10];
        // define the input streams 
        let task=Task::new(0,1,1,8); 
        task.execute(&mut test_results, &mut test_stream_ref, &mut test_stream_alt);
        let mut expected_res=vec!['x';10];
        expected_res[8]='B'; 
        assert_eq!(*test_results,*expected_res);
        let task2=Task::new(0,4,1,4); 
        task2.execute(&mut test_results, &mut test_stream_ref, &mut test_stream_alt);
        expected_res[4]='E'; 
        assert_eq!(*test_results,*expected_res);
        let task3=Task::new(0,6,2,6); 
        task3.execute(&mut test_results, &mut test_stream_ref, &mut test_stream_alt);
        expected_res[6]='G'; 
        expected_res[7]='H'; 
        assert_eq!(*test_results,*expected_res);
    }

#[test]
fn test_sequence_tape() {
        let code_string="SEQ1_SEQ2_SEQ3_SEQ4_SEQ5_SEQ6".to_string(); 
        let mut res_map:Vec<(String,(usize,usize))>=Vec::new();
        res_map.push(("1".to_string(), (0,4))); 
        res_map.push(("2".to_string(), (5,9))); 
        res_map.push(("3".to_string(), (10,14))); 
        res_map.push(("4".to_string(), (15,19))); 
        res_map.push(("5".to_string(), (20,24))); 
        res_map.push(("6".to_string(), (25,29))); 
        let seq_tape=SequenceTape::new(code_string, res_map).unwrap(); 
        // check the correct mapping between the annotations
        assert_eq!("SEQ1",seq_tape.get_seq(&"1".to_string()).unwrap()); 
        assert_eq!("SEQ2",seq_tape.get_seq(&"2".to_string()).unwrap());
        assert_eq!("SEQ3",seq_tape.get_seq(&"3".to_string()).unwrap());
        assert_eq!("SEQ4",seq_tape.get_seq(&"4".to_string()).unwrap());
        assert_eq!("SEQ5",seq_tape.get_seq(&"5".to_string()).unwrap());
        assert_eq!("SEQ6",seq_tape.get_seq(&"6".to_string()).unwrap());
    }

